use confsolve::args::{parse_args, Command};
use confsolve::args::Command::{ResolveWuala, ResolveDropbox, PrintHelp, InvalidUsage};

#[test]
fn args_tests() {
    let confsolve = "confsolve".to_string();
    let wuala = "wuala".to_string();
    let dropbox = "dropbox".to_string();
    let help = "--help".to_string();
    let h = "-h".to_string();
    let argh = "argh".to_string();
    let dir = "dir".to_string();
    let dir_path = "dir".to_string();

    assert_eq!(parse_args(&vec![confsolve.clone(), help.clone()]), PrintHelp);
    assert_eq!(parse_args(&vec![confsolve.clone(), wuala.clone(), help.clone()]), PrintHelp);
    assert_eq!(parse_args(&vec![confsolve.clone(), dropbox.clone(), help.clone()]), PrintHelp);
    assert_eq!(parse_args(&vec![confsolve.clone(), wuala.clone(), h.clone()]), PrintHelp);
    assert_eq!(parse_args(&vec![confsolve.clone(), dropbox.clone(), h.clone()]), PrintHelp);
    assert_eq!(parse_args(&vec![confsolve.clone(), wuala.clone()]), InvalidUsage);
    assert_eq!(parse_args(&vec![confsolve.clone(), dropbox.clone()]), InvalidUsage);
    assert_eq!(parse_args(&vec![confsolve.clone(), argh.clone()]), InvalidUsage);
    assert_eq!(parse_args(&vec![confsolve.clone()]), InvalidUsage);
    assert_eq!(parse_args(&vec![confsolve.clone(), argh.clone(), argh.clone()]), InvalidUsage);
    assert_eq!(
        parse_args(&vec![confsolve.clone(), wuala.clone(), dir.clone()]),
        ResolveWuala(dir_path.clone())
    );
    assert_eq!(
        parse_args(&vec![confsolve.clone(), dropbox.clone(), dir.clone()]),
        ResolveDropbox(dir_path.clone())
    );
}

#[test]
fn args_never_panics_on_extra_arguments() {
    let args: Vec<String> = vec![
        "confsolve".to_string(),
        "wuala".to_string(),
        "dir".to_string(),
        "extra".to_string(),
    ];
    assert_eq!(parse_args(&args), Command::InvalidUsage);
}
