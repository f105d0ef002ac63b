//! What the server is started with, and which values are taken for it.

use crate::text::{parse_count, parse_count_text, trim, trim_text};
use vstd::prelude::*;

verus! {

/// The port that is used where none is given.
pub const DEFAULT_PORT: u16 = 8082;

/// What the server is started with.
#[derive(PartialEq, Eq, Debug)]
pub struct InitializationData {
    pub username: String,
    pub password_hash: String,
    /// The folder that the data folder of the server lies in.
    pub proxima_path: String,
    pub backend_url: String,
    pub port: u16,
}

/// Whether `text` can be a name or a password: it is not blank and has
/// fewer than 100 characters.
pub open spec fn is_short_text(text: Seq<char>) -> bool {
    trim(text).len() > 0 && text.len() < 100
}

/// Whether `text` can be the address of a chat service: it is not blank
/// and has fewer than 300 characters.
pub open spec fn is_url_text(text: Seq<char>) -> bool {
    trim(text).len() > 0 && text.len() < 300
}

/// The port that `text` names: a number from 1025 to 65534.
pub open spec fn port_of(text: Seq<char>) -> Option<u16> {
    match parse_count(text) {
        Some(n) => if 1024 < n && n < 65535 {
            Some(n as u16)
        } else {
            None
        },
        None => None,
    }
}

/// Whether `text` can be a name or a password.
pub fn check_short_text(text: &str) -> (r: bool)
    ensures
        r == is_short_text(text@),
{
    trim_text(text).as_str().unicode_len() > 0 && text.unicode_len() < 100
}

/// Whether `text` can be the address of a chat service.
pub fn check_url_text(text: &str) -> (r: bool)
    ensures
        r == is_url_text(text@),
{
    trim_text(text).as_str().unicode_len() > 0 && text.unicode_len() < 300
}

/// The port that `text` names, if it names one.
pub fn parse_port(text: &str) -> (r: Option<u16>)
    ensures
        r == port_of(text@),
{
    match parse_count_text(text) {
        Some(n) => if 1024 < n && n < 65535 {
            Some(n as u16)
        } else {
            None
        },
        None => None,
    }
}

/// What the arguments `args` start the server with: after the name of the
/// program come the user name, the password, the folder, the address of the
/// chat service and the port. `None` where there are not five of them or one
/// cannot be taken. `path_is_dir` says whether the folder exists.
pub open spec fn from_arguments_spec(args: Seq<Seq<char>>, path_is_dir: bool) -> Option<
    (Seq<char>, Seq<char>, Seq<char>, Seq<char>, u16),
> {
    if args.len() == 6 && port_of(args[5]) is Some && is_short_text(args[1]) && is_short_text(
        args[2],
    ) && trim(args[3]).len() > 0 && path_is_dir && is_url_text(args[4]) {
        Some((trim(args[1]), trim(args[2]), trim(args[3]), trim(args[4]), port_of(args[5])->0))
    } else {
        None
    }
}

impl InitializationData {
    /// What the server is started with before anything is known: empty
    /// texts and the default port.
    pub fn new() -> (r: InitializationData)
        ensures
            r.username@.len() == 0,
            r.password_hash@.len() == 0,
            r.proxima_path@.len() == 0,
            r.backend_url@.len() == 0,
            r.port == DEFAULT_PORT,
    {
        InitializationData {
            username: String::new(),
            password_hash: String::new(),
            proxima_path: String::new(),
            backend_url: String::new(),
            port: DEFAULT_PORT,
        }
    }

    /// What the arguments `args` start the server with, if they can be taken.
    pub fn from_arguments(args: &Vec<String>, path_is_dir: bool) -> (r: Option<InitializationData>)
        ensures
            match r {
                Some(init) => from_arguments_spec(
                    crate::text::text_views(args@),
                    path_is_dir,
                ) == Some(
                    (
                        init.username@,
                        init.password_hash@,
                        init.proxima_path@,
                        init.backend_url@,
                        init.port,
                    ),
                ),
                None => from_arguments_spec(crate::text::text_views(args@), path_is_dir) is None,
            },
    {
        if args.len() != 6 {
            return None;
        }
        proof {
            assert(crate::text::text_views(args@)[1] == args@[1]@);
            assert(crate::text::text_views(args@)[2] == args@[2]@);
            assert(crate::text::text_views(args@)[3] == args@[3]@);
            assert(crate::text::text_views(args@)[4] == args@[4]@);
            assert(crate::text::text_views(args@)[5] == args@[5]@);
        }
        let port = match parse_port(args[5].as_str()) {
            Some(port) => port,
            None => {
                return None;
            },
        };
        let path = trim_text(args[3].as_str());
        if check_short_text(args[1].as_str()) && check_short_text(args[2].as_str())
            && path.as_str().unicode_len() > 0 && path_is_dir && check_url_text(
            args[4].as_str(),
        ) {
            Some(
                InitializationData {
                    username: trim_text(args[1].as_str()),
                    password_hash: trim_text(args[2].as_str()),
                    proxima_path: path,
                    backend_url: trim_text(args[4].as_str()),
                    port,
                },
            )
        } else {
            None
        }
    }
}

} // verus!
