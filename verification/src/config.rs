//! Tunables that were decided up front, gathered in one place.
use crate::model::Millis;
use crate::text::{cat, cat3, chars_of};
use vstd::prelude::*;

verus! {

/// A UUIDv7 is 16 bytes. An encoded payload smaller than that is cheaper to
/// ship whole than to ship an id the receiver has to resolve, so the bus
/// inlines it.
pub const INLINE_MAX_BYTES: usize = 16;

/// Per-session delivery queue. On overflow the session is handed a resync
/// marker instead of blocking the bus.
pub const SESSION_QUEUE: usize = 256;

/// Reconnect replays at most this many events before falling back to a plain
/// state read and reporting a gap.
pub const REPLAY_EVENT_CAP: usize = 500;

/// ...and never reaches further back than this.
pub const REPLAY_AGE_MILLIS: i64 = 7 * 24 * 60 * 60 * 1000;

/// Consecutive messages from one author group under a single timestamp until
/// this much time passes (or the day changes).
pub const GROUP_GAP_MILLIS: i64 = 5 * 60 * 1000;

/// How many messages a conversation view holds before older ones are dropped
/// from memory and re-fetched on scroll.
pub const MESSAGE_WINDOW: usize = 500;

/// How long the status bar flashes red after a command is refused.
pub const ERROR_FLASH: Millis = 1000;

/// Bumped only if the on-disk encoding of an event has to change shape
/// incompatibly.
pub const EVENT_SCHEMA_VERSION: i64 = 1;

/// `name` inside the directory `dir`: an absolute name stands for itself, and
/// a separator that `dir` ends in is not doubled.
pub open spec fn joined_path(dir: Seq<char>, name: Seq<char>) -> Seq<char> {
    if name.len() > 0 && name[0] == '/' {
        name
    } else if dir.len() == 0 || dir.last() == '/' {
        dir + name
    } else {
        dir + seq!['/'] + name
    }
}

fn join_path(dir: &str, name: &str) -> (r: String)
    ensures
        r@ == joined_path(dir@, name@),
{
    let front = chars_of(name);
    if front.len() > 0 && front[0] == '/' {
        return name.to_owned();
    }
    let back = chars_of(dir);
    if back.len() == 0 || back[back.len() - 1] == '/' {
        return cat(dir, name);
    }
    proof {
        reveal_strlit("/");
        assert("/"@ == seq!['/']);
    }
    cat3(dir, "/", name)
}

/// Where the board keeps its files: under `XDG_DATA_HOME` if that is set to
/// something, under the home directory otherwise.
pub open spec fn data_path(xdg: Option<Seq<char>>, home: Option<Seq<char>>) -> Seq<char> {
    if xdg is Some && xdg->Some_0.len() > 0 {
        joined_path(xdg->Some_0, "newbbs"@)
    } else if home is Some {
        joined_path(home->Some_0, ".local/share/newbbs"@)
    } else {
        joined_path("."@, ".local/share/newbbs"@)
    }
}

/// The text that an optional one holds.
pub open spec fn held(text: Option<&str>) -> Option<Seq<char>> {
    match text {
        Some(t) => Some(t@),
        None => None,
    }
}

/// `$XDG_DATA_HOME/newbbs` (or `~/.local/share/newbbs`), for the values that
/// `XDG_DATA_HOME` and `HOME` have.
pub fn data_dir(xdg: Option<&str>, home: Option<&str>) -> (r: String)
    ensures
        r@ == data_path(held(xdg), held(home)),
{
    if let Some(dir) = xdg {
        if !dir.is_empty() {
            return join_path(dir, "newbbs");
        }
    }
    match home {
        Some(dir) => join_path(dir, ".local/share/newbbs"),
        None => join_path(".", ".local/share/newbbs"),
    }
}

pub fn default_db_path(xdg: Option<&str>, home: Option<&str>) -> (r: String)
    ensures
        r@ == joined_path(data_path(held(xdg), held(home)), "newbbs.db"@),
{
    let dir = data_dir(xdg, home);
    join_path(dir.as_str(), "newbbs.db")
}

/// The TUI owns the terminal, so logs go to a file.
pub fn log_dir(xdg: Option<&str>, home: Option<&str>) -> (r: String)
    ensures
        r@ == joined_path(data_path(held(xdg), held(home)), "logs"@),
{
    let dir = data_dir(xdg, home);
    join_path(dir.as_str(), "logs")
}

// ---------------------------------------------------------------------------
// the splash shown to an ssh session before the board
// ---------------------------------------------------------------------------

/// Settings keys. Both fall back to the defaults below when unset, so a fresh
/// board looks right without any setup.
pub const SETTING_ART: &'static str = "splash.art";

pub const SETTING_MOTD: &'static str = "splash.motd";

pub const DEFAULT_ART: &'static str =
    " _____           _____ _____ _____ \n|   | |___ _ _ _| __  | __  |   __|\n| | | | -_| | | | __ -| __ -|__   |\n|_|___|___|_____|_____|_____|_____|";

pub const DEFAULT_MOTD: &'static str = "powered by newbbs";

/// What is inside a directory is named by the directory, one separator and the
/// name; a name that starts at the root stands for itself.
pub proof fn files_lie_in_their_directory(dir: Seq<char>, name: Seq<char>)
    ensures
        name.len() > 0 && name[0] != '/' && dir.len() > 0 && dir.last() != '/' ==> joined_path(
            dir,
            name,
        ) == dir + seq!['/'] + name,
        name.len() > 0 && name[0] != '/' ==> joined_path(dir + seq!['/'], name) == dir + seq!['/']
            + name,
        joined_path(dir, seq!['/'] + name) == seq!['/'] + name,
{
    assert((dir + seq!['/']).last() == '/');
    assert((seq!['/'] + name)[0] == '/');
}

/// The board keeps its files below `XDG_DATA_HOME` if that is set to
/// something, whatever the home directory is, and below the home directory if
/// it is not set or empty.
pub proof fn the_data_directory_is_where_it_was_asked_for(
    xdg: Seq<char>,
    home: Option<Seq<char>>,
    dir: Seq<char>,
)
    ensures
        xdg.len() > 0 && xdg.last() != '/' ==> data_path(Some(xdg), home) == xdg + "/newbbs"@,
        dir.len() > 0 && dir.last() != '/' ==> data_path(None, Some(dir)) == dir
            + "/.local/share/newbbs"@ && data_path(Some(Seq::empty()), Some(dir)) == dir
            + "/.local/share/newbbs"@,
        data_path(None, None) == "./.local/share/newbbs"@,
{
    reveal_strlit("newbbs");
    reveal_strlit("/newbbs");
    reveal_strlit(".local/share/newbbs");
    reveal_strlit("/.local/share/newbbs");
    reveal_strlit("./.local/share/newbbs");
    reveal_strlit(".");
    assert(xdg + seq!['/'] + "newbbs"@ =~= xdg + "/newbbs"@);
    assert(dir + seq!['/'] + ".local/share/newbbs"@ =~= dir + "/.local/share/newbbs"@);
    assert("."@ + seq!['/'] + ".local/share/newbbs"@ =~= "./.local/share/newbbs"@);
}

} // verus!
