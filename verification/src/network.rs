//! The decisions around the connections to the relay: which relay, what to pass on, and
//! the surroundings of a host.
use vstd::prelude::*;
use vstd::slice::*;
use vstd::string::*;

verus! {

/// The relay that is used unless another is named.
pub const DEFAULT_RELAY: &'static str = "relay.herdr.dev:4002";

/// How much is read from a connection or a terminal at a time.
pub const BUF_SIZE: usize = 8_192;

/// The address of the relay: the flag's, else the environment's, else the default.
pub open spec fn relay_address(flag: Option<Seq<char>>, variable: Option<Seq<char>>) -> Seq<char> {
    match flag {
        Some(addr) => addr,
        None => match variable {
            Some(addr) => addr,
            None => DEFAULT_RELAY@,
        },
    }
}

/// Decides on the relay's address, given the value of the command line flag and that of
/// the environment variable `HERDR_RELAY_ADDR`.
pub fn resolve_relay(flag: Option<&str>, variable: Option<&str>) -> (r: String)
    ensures
        r@ == relay_address(
            match flag {
                Some(addr) => Some(addr@),
                None => None,
            },
            match variable {
                Some(addr) => Some(addr@),
                None => None,
            },
        ),
{
    match flag {
        Some(addr) => addr.to_owned(),
        None => match variable {
            Some(addr) => addr.to_owned(),
            None => DEFAULT_RELAY.to_owned(),
        },
    }
}

/// What a read into `buf` brought: the bytes read. `None` at the end of the stream, and
/// where reading failed: the stream is then done with.
pub fn read_chunk(buf: &[u8], read: Option<usize>) -> (r: Option<Vec<u8>>)
    requires
        read matches Some(n) ==> n <= buf@.len(),
    ensures
        match r {
            Some(chunk) => read matches Some(n) && n > 0 && chunk@ == buf@.take(n as int),
            None => read is None || read == Some(0usize),
        },
{
    match read {
        Some(n) => {
            if n == 0 {
                None
            } else {
                Some(slice_to_vec(slice_subrange(buf, 0, n)))
            }
        },
        None => None,
    }
}

/// The size of the terminal that a host's programs run in, in columns and rows: that of
/// the host's own terminal, or 80 by 24 if that cannot be told.
pub fn pty_size(detected: Option<(u16, u16)>) -> (r: (u16, u16))
    ensures
        r == match detected {
            Some(size) => size,
            None => (80u16, 24u16),
        },
{
    match detected {
        Some(size) => size,
        None => (80, 24),
    }
}

/// The operating system.
#[derive(Clone, Copy, PartialEq, Eq, Structural, Debug)]
pub enum Platform {
    MacOs,
    Linux,
    OtherUnix,
    Windows,
    Other,
}

/// The words of the command that takes the clipboard's new text on its input, after so many
/// that failed; on Linux there are two to try.
pub open spec fn clipboard_words(platform: Platform, attempt: nat) -> Option<Seq<Seq<char>>> {
    match platform {
        Platform::MacOs => if attempt == 0 {
            Some(seq!["pbcopy"@])
        } else {
            None
        },
        Platform::Linux => if attempt == 0 {
            Some(seq!["wl-copy"@])
        } else if attempt == 1 {
            Some(seq!["xclip"@, "-selection"@, "clipboard"@])
        } else {
            None
        },
        Platform::Windows => if attempt == 0 {
            Some(seq!["clip"@])
        } else {
            None
        },
        _ => None,
    }
}

/// The words of the command to try next: none once one has succeeded.
pub open spec fn next_clipboard_words(
    platform: Platform,
    failures: nat,
    succeeded: bool,
) -> Option<Seq<Seq<char>>> {
    if succeeded {
        None
    } else {
        clipboard_words(platform, failures)
    }
}

/// The command to try next for the clipboard, after so many failures; `None` once one has
/// succeeded, or there is nothing left to try.
pub fn clipboard_command(platform: Platform, failures: usize, succeeded: bool) -> (r: Option<
    Vec<&'static str>,
>)
    ensures
        match r {
            Some(words) => next_clipboard_words(platform, failures as nat, succeeded) == Some(
                words@.map_values(|w: &'static str| w@),
            ),
            None => next_clipboard_words(platform, failures as nat, succeeded) is None,
        },
{
    if succeeded {
        return None;
    }
    let mut words: Vec<&'static str> = Vec::new();
    match platform {
        Platform::MacOs => {
            if failures != 0 {
                return None;
            }
            words.push("pbcopy");
            assert(words@.map_values(|w: &'static str| w@) =~= seq!["pbcopy"@]);
        },
        Platform::Linux => {
            if failures == 0 {
                words.push("wl-copy");
                assert(words@.map_values(|w: &'static str| w@) =~= seq!["wl-copy"@]);
            } else if failures == 1 {
                words.push("xclip");
                words.push("-selection");
                words.push("clipboard");
                assert(words@.map_values(|w: &'static str| w@) =~= seq![
                    "xclip"@,
                    "-selection"@,
                    "clipboard"@,
                ]);
            } else {
                return None;
            }
        },
        Platform::Windows => {
            if failures != 0 {
                return None;
            }
            words.push("clip");
            assert(words@.map_values(|w: &'static str| w@) =~= seq!["clip"@]);
        },
        _ => {
            return None;
        },
    }
    Some(words)
}

// ---------------------------------------------------------------------------
// Laws
// ---------------------------------------------------------------------------

/// The flag wins over the environment, and the environment over the default.
pub proof fn law_relay_precedence(flag: Seq<char>, variable: Option<Seq<char>>, value: Seq<char>)
    ensures
        relay_address(Some(flag), variable) == flag,
        relay_address(None, Some(value)) == value,
        relay_address(None, None) == DEFAULT_RELAY@,
{
}

/// The relay is the one that the flag names, whatever the environment has; without a flag the
/// one of the environment; without either the public one.
pub proof fn law_relay_is_the_one_named(
    flag: &str,
    variable: Option<&str>,
    value: &str,
    by_flag: String,
    by_variable: String,
    by_default: String,
)
    requires
        call_ensures(resolve_relay, (Some(flag), variable), by_flag),
        call_ensures(resolve_relay, (None::<&str>, Some(value)), by_variable),
        call_ensures(resolve_relay, (None::<&str>, None::<&str>), by_default),
    ensures
        by_flag@ == flag@,
        by_variable@ == value@,
        by_default@ == "relay.herdr.dev:4002"@,
{
}

/// A read hands on all the bytes that it brought, and only those; a stream is done with where
/// it brings none or fails. Up to eight kibibytes are asked for at a time.
pub proof fn law_read_hands_on_what_it_brought(buf: &[u8], n: usize, r: Option<Vec<u8>>)
    requires
        n <= buf@.len(),
        call_ensures(read_chunk, (buf, Some(n)), r),
    ensures
        r is Some <==> n > 0,
        r matches Some(chunk) ==> chunk@.len() == n && forall|i: int|
            0 <= i < n ==> #[trigger] chunk@[i] == buf@[i],
        forall|q: Option<Vec<u8>>| #[trigger]
            call_ensures(read_chunk, (buf, None::<usize>), q) ==> q is None,
        BUF_SIZE == 8_192,
{
}

/// A host's programs get the size of the host's own terminal, whatever it is; 80 columns by 24
/// rows only where that cannot be told.
pub proof fn law_terminal_keeps_its_size(size: (u16, u16), r: (u16, u16), q: (u16, u16))
    requires
        call_ensures(pty_size, (Some(size),), r),
        call_ensures(pty_size, (None::<(u16, u16)>,), q),
    ensures
        r == size,
        q == (80u16, 24u16),
{
}

/// The words of a command.
pub open spec fn words_of(command: Option<Vec<&'static str>>) -> Option<Seq<Seq<char>>> {
    match command {
        Some(words) => Some(words@.map_values(|w: &'static str| w@)),
        None => None,
    }
}

/// One clipboard program is tried after the other until one succeeds: each platform's own, on
/// Linux that of Wayland and then that of X. There is nothing more to try after a success or
/// after the last, nor on a platform without a clipboard.
pub proof fn law_clipboard_programs_are_tried_in_turn(
    platform: Platform,
    failures: usize,
    next: Option<Vec<&'static str>>,
    done: Option<Vec<&'static str>>,
)
    requires
        call_ensures(clipboard_command, (platform, failures, false), next),
        call_ensures(clipboard_command, (platform, failures, true), done),
    ensures
        done is None,
        next is Some <==> failures < match platform {
            Platform::Linux => 2int,
            Platform::MacOs => 1,
            Platform::Windows => 1,
            _ => 0,
        },
        platform == Platform::MacOs && failures == 0 ==> words_of(next) == Some(seq!["pbcopy"@]),
        platform == Platform::Windows && failures == 0 ==> words_of(next) == Some(seq!["clip"@]),
        platform == Platform::Linux && failures == 0 ==> words_of(next) == Some(seq!["wl-copy"@]),
        platform == Platform::Linux && failures == 1 ==> words_of(next) == Some(
            seq!["xclip"@, "-selection"@, "clipboard"@],
        ),
{
}

} // verus!
