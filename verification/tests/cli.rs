use lib::cli::{parse_command, Command};

fn args(v: &[&str]) -> Vec<String> {
    v.iter().map(|s| s.to_string()).collect()
}

#[test]
fn no_option_shows_banner() {
    assert_eq!(parse_command(&args(&["katyusha"])), Command::Banner);
    assert_eq!(parse_command(&[]), Command::Banner);
}

#[test]
fn install_options() {
    assert_eq!(
        parse_command(&args(&["k", "-i", "nano"])),
        Command::Install { name: "nano".to_string(), force: false }
    );
    assert_eq!(
        parse_command(&args(&["k", "--install", "nano", "--force"])),
        Command::Install { name: "nano".to_string(), force: true }
    );
    assert_eq!(
        parse_command(&args(&["k", "-i", "nano", "x", "-f"])),
        Command::Install { name: "nano".to_string(), force: true }
    );
    assert_eq!(
        parse_command(&args(&["k", "-i"])),
        Command::MissingArgument("Missing package name. Usage: sudo katyusha -i <package> [--force]".to_string())
    );
}

#[test]
fn other_options() {
    assert_eq!(parse_command(&args(&["k", "-r", "nano"])), Command::Remove { name: "nano".to_string() });
    assert_eq!(
        parse_command(&args(&["k", "--remove"])),
        Command::MissingArgument("Missing package name. Usage: sudo katyusha -r <package>".to_string())
    );
    assert_eq!(parse_command(&args(&["k", "-s", "edit"])), Command::Search { query: "edit".to_string() });
    assert_eq!(
        parse_command(&args(&["k", "--search"])),
        Command::MissingArgument("Missing search term. Usage: katyusha -s <text>".to_string())
    );
    assert_eq!(parse_command(&args(&["k", "-l"])), Command::List);
    assert_eq!(parse_command(&args(&["k", "--list"])), Command::List);
    assert_eq!(parse_command(&args(&["k", "--info"])), Command::Info);
    assert_eq!(parse_command(&args(&["k", "-h"])), Command::Help);
    assert_eq!(parse_command(&args(&["k", "--version"])), Command::Version);
    assert_eq!(parse_command(&args(&["k", "-x"])), Command::Unknown("-x".to_string()));
}
