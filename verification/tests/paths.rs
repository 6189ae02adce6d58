use aerospace_helper::paths::{
    current_user, floating_ws_path, home_dir, icon_map_path, pid_path, socket_path,
};

#[test]
fn socket_and_pid_file_are_named_after_the_user() {
    assert_eq!(socket_path("kim"), "/tmp/aerospace-helper-kim.sock");
    assert_eq!(pid_path("kim"), "/tmp/aerospace-helper-kim.pid");
}

#[test]
fn users_do_not_share_files() {
    assert_ne!(socket_path("kim"), socket_path("sam"));
    assert_ne!(pid_path("kim"), pid_path("sam"));
    assert_ne!(socket_path("kim"), pid_path("kim"));
}

#[test]
fn configuration_is_under_home() {
    assert_eq!(
        icon_map_path("/Users/kim"),
        "/Users/kim/.config/aerospace/sketchybar/icon_map.toml"
    );
    assert_eq!(
        floating_ws_path("/Users/kim"),
        "/Users/kim/.local/state/aero/floating-workspaces"
    );
}

#[test]
fn unset_variables_have_stand_ins() {
    assert_eq!(home_dir(None), "/Users/eric");
    assert_eq!(home_dir(Some("/home/kim".to_string())), "/home/kim");
    assert_eq!(current_user(None), "user");
    assert_eq!(current_user(Some("kim".to_string())), "kim");
    assert_eq!(current_user(Some(String::new())), "");
}
