use steamd::install::{Client, Server, SteamCommand};
use steamd::text::{decimal_string, join_path_string, join_words_string};

#[test]
fn test_run() {
    let args = ["world"];
    let command = SteamCommand::new("hello", &args);
    assert_eq!(String::from("hello world"), command.render().trim_end());
}

#[test]
fn command_without_arguments_keeps_its_separator() {
    let none: [&str; 0] = [];
    assert_eq!(SteamCommand::new("+exit", &none).render(), "+exit ");
}

#[test]
fn command_with_two_arguments() {
    let args = ["896660", "validate"];
    assert_eq!(SteamCommand::new("+app_update", &args).render(), "+app_update 896660 validate");
}

#[test]
fn install_arguments_for_valheim() {
    let server = Server::new(7, "Valheim", "anonymous", "valheim");
    let client = Client::new("./steamcmd.sh");
    let args = client.install_args("/srv/games", &server);
    assert_eq!(
        args,
        vec![
            String::from("+force_install_dir /srv/games/valheim"),
            String::from("+login anonymous"),
            String::from("+app_update 7 validate"),
            String::from("+exit "),
        ]
    );
}

#[test]
fn install_arguments_use_the_server_id_as_application() {
    let server = Server::new(896660, "Valheim", "anonymous", "valheim");
    let args = Client::new("steamcmd").install_args("/srv/games", &server);
    assert_eq!(args[2], "+app_update 896660 validate");
}

#[test]
fn install_arguments_use_the_server_login() {
    let server = Server::new(3, "Rust", "operator", "rust");
    let args = Client::new("steamcmd").install_args("/srv/games/", &server);
    assert_eq!(args[0], "+force_install_dir /srv/games/rust");
    assert_eq!(args[1], "+login operator");
}

#[test]
fn client_keeps_its_executable() {
    assert_eq!(Client::new("./steamcmd.sh").steamd_cmd(), "./steamcmd.sh");
}

#[test]
fn decimal_of_zero_positive_and_negative() {
    assert_eq!(decimal_string(0), "0");
    assert_eq!(decimal_string(7), "7");
    assert_eq!(decimal_string(896660), "896660");
    assert_eq!(decimal_string(-42), "-42");
    assert_eq!(decimal_string(i32::MAX), "2147483647");
    assert_eq!(decimal_string(i32::MIN), "-2147483648");
}

#[test]
fn path_join_adds_one_separator() {
    assert_eq!(join_path_string("/srv/games", "valheim"), "/srv/games/valheim");
    assert_eq!(join_path_string("/srv/games/", "valheim"), "/srv/games/valheim");
    assert_eq!(join_path_string("", "valheim"), "valheim");
}

#[test]
fn path_join_absolute_directory_replaces_base() {
    assert_eq!(join_path_string("/srv/games", "/opt/valheim"), "/opt/valheim");
}

#[test]
fn path_join_matches_std_for_relative_segments() {
    for (base, dir) in [("/srv/games", "valheim"), ("/srv/games/", "a/b"), ("rel", "x"), ("/", "y")] {
        let expected = std::path::Path::new(base).join(dir).display().to_string();
        assert_eq!(join_path_string(base, dir), expected);
    }
}

#[test]
fn words_are_joined_with_single_spaces() {
    assert_eq!(join_words_string(&[]), "");
    assert_eq!(join_words_string(&["a"]), "a");
    assert_eq!(join_words_string(&["a", "b", "c"]), "a b c");
}
