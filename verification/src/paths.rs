//! Where the helper's files are.

use vstd::prelude::*;

use crate::text::chain;

verus! {

/// The home directory, from the variable that names it, if it is set.
pub fn home_dir(variable: Option<String>) -> (home: String)
    ensures
        home@ == match variable {
            Some(home) => home@,
            None => "/Users/eric"@,
        },
{
    match variable {
        Some(home) => home,
        None => "/Users/eric".to_owned(),
    }
}

/// The user's name, from the variable that names it, if it is set.
pub fn current_user(variable: Option<String>) -> (user: String)
    ensures
        user@ == match variable {
            Some(user) => user@,
            None => "user"@,
        },
{
    match variable {
        Some(user) => user,
        None => "user".to_owned(),
    }
}

/// The socket of the helper of `user`.
pub open spec fn socket_of(user: Seq<char>) -> Seq<char> {
    "/tmp/aerospace-helper-"@ + user + ".sock"@
}

/// The file in which the helper of `user` leaves its process number.
pub open spec fn pid_file_of(user: Seq<char>) -> Seq<char> {
    "/tmp/aerospace-helper-"@ + user + ".pid"@
}

/// The socket on which the helper takes nudges. Its name holds the user's, so that the helpers of
/// two users do not meet.
pub fn socket_path(user: &str) -> (path: String)
    ensures
        path@ == socket_of(user@),
{
    let mut path = chain("/tmp/aerospace-helper-", user);
    path.append(".sock");
    path
}

/// The file in which the helper leaves its process number, by user as the socket is.
pub fn pid_path(user: &str) -> (path: String)
    ensures
        path@ == pid_file_of(user@),
{
    let mut path = chain("/tmp/aerospace-helper-", user);
    path.append(".pid");
    path
}

/// The file that lists the icons of applications.
pub fn icon_map_path(home: &str) -> (path: String)
    ensures
        path@ == home@ + "/.config/aerospace/sketchybar/icon_map.toml"@,
{
    chain(home, "/.config/aerospace/sketchybar/icon_map.toml")
}

/// The file that names the workspaces in floating mode.
pub fn floating_ws_path(home: &str) -> (path: String)
    ensures
        path@ == home@ + "/.local/state/aero/floating-workspaces"@,
{
    chain(home, "/.local/state/aero/floating-workspaces")
}

/// What stands between a start and an end is found again.
proof fn lemma_middle(start: Seq<char>, a: Seq<char>, b: Seq<char>, end: Seq<char>)
    requires
        start + a + end == start + b + end,
    ensures
        a == b,
{
    let whole = start + a + end;
    assert(a == whole.subrange(start.len() as int, whole.len() - end.len()));
    assert(b == whole.subrange(start.len() as int, whole.len() - end.len()));
}

/// The helpers of two users share neither socket nor process file.
pub proof fn law_users_apart(one: Seq<char>, other: Seq<char>)
    requires
        one != other,
    ensures
        socket_of(one) != socket_of(other),
        pid_file_of(one) != pid_file_of(other),
{
    if socket_of(one) == socket_of(other) {
        lemma_middle("/tmp/aerospace-helper-"@, one, other, ".sock"@);
    }
    if pid_file_of(one) == pid_file_of(other) {
        lemma_middle("/tmp/aerospace-helper-"@, one, other, ".pid"@);
    }
}

/// No helper's socket is a helper's process file, whoever the users are.
pub proof fn law_socket_is_no_pid_file(one: Seq<char>, other: Seq<char>)
    ensures
        socket_of(one) != pid_file_of(other),
{
    reveal_strlit(".sock");
    reveal_strlit(".pid");
    assert(socket_of(one).last() == 'k');
    assert(pid_file_of(other).last() == 'd');
}

/// The socket and the process file of a user are in `/tmp`, under the helper's name, the user's in
/// full, and an ending.
pub proof fn law_user_in_paths(user: Seq<char>)
    ensures
        socket_of(user).len() == user.len() + 27,
        socket_of(user).take(22) == "/tmp/aerospace-helper-"@,
        socket_of(user).subrange(22, 22 + user.len() as int) == user,
        socket_of(user).skip(22 + user.len() as int) == ".sock"@,
        pid_file_of(user).len() == user.len() + 26,
        pid_file_of(user).take(22) == "/tmp/aerospace-helper-"@,
        pid_file_of(user).subrange(22, 22 + user.len() as int) == user,
        pid_file_of(user).skip(22 + user.len() as int) == ".pid"@,
{
    reveal_strlit("/tmp/aerospace-helper-");
    reveal_strlit(".sock");
    reveal_strlit(".pid");
    assert("/tmp/aerospace-helper-"@.len() == 22);
    let at = 22 + user.len() as int;
    assert(socket_of(user).take(22) == "/tmp/aerospace-helper-"@);
    assert(socket_of(user).subrange(22, at) == user);
    assert(socket_of(user).skip(at) == ".sock"@);
    assert(pid_file_of(user).take(22) == "/tmp/aerospace-helper-"@);
    assert(pid_file_of(user).subrange(22, at) == user);
    assert(pid_file_of(user).skip(at) == ".pid"@);
}

} // verus!
