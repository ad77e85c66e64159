use confsolve::appdirs::cache;

#[test]
fn appdirs_tests() {
    match dirs::home_dir() {
        Some(mut dir) => {
            dir.push(".cache");
            dir.push("blub");
            let dir_str = format!("{}", dir.display());
            let cache_str = cache("blub").unwrap();
            assert_eq!(dir_str, cache_str);
        }

        None => assert!(false, "Couldn't get homedir!"),
    }
}

#[test]
fn cache_of_empty_app_name_is_none() {
    assert_eq!(cache(""), None);
}
