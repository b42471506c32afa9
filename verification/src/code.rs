//! Session codes: six characters that are easy to read out and type.
use crate::protocol::{
    code_of_reply, code_reply_text, first_line, fits_line, join_request_text,
    law_code_reply_is_understood, law_join_request_is_understood, request_of, RequestView,
};
use crate::text::{join3, is_bare, law_trim_keeps_bare, white_space};
use sha2::{Digest, Sha256};
use vstd::prelude::*;
use vstd::string::*;

verus! {

/// The characters of a code: small letters and digits, without those that are easily
/// taken for one another.
pub const CODE_CHARS: &'static str = "abcdefghjkmnpqrstuvwxyz23456789";

/// How many characters a code has.
pub const CODE_LEN: usize = 6;

/// The SHA-256 digest of `data`.
pub uninterp spec fn sha256_digest(data: Seq<u8>) -> Seq<u8>;

/// `sha2::Sha256::digest`: the digest, which depends on the data alone and has
/// 32 bytes. The length of the data in bits must fit in 64 bits.
#[verifier::external_body]
fn sha256(data: &[u8]) -> (r: Vec<u8>)
    requires
        data@.len() < 0x2000_0000_0000_0000,
    ensures
        r@ == sha256_digest(data@),
        r@.len() == 32,
{
    Sha256::digest(data).to_vec()
}

/// The lowest `n` bytes of `x`, least significant first.
pub open spec fn le_bytes(x: nat, n: nat) -> Seq<u8>
    decreases n,
{
    if n == 0 {
        Seq::empty()
    } else {
        seq![(x % 256) as u8] + le_bytes(x / 256, (n - 1) as nat)
    }
}

/// What a code is made from: the time, the process id and some random bytes.
pub open spec fn code_seed(ts: u128, pid: u32, extra: Seq<u8>) -> Seq<u8> {
    le_bytes(ts as nat, 16) + le_bytes(pid as nat, 4) + extra
}

/// The code that a digest gives: one character for each of its first bytes.
pub open spec fn code_text(digest: Seq<u8>) -> Seq<char> {
    Seq::new(CODE_LEN as nat, |i: int| CODE_CHARS@[digest[i] as int % CODE_CHARS@.len() as int])
}

/// Appends the lowest `n` bytes of `x`, least significant first.
fn push_le_bytes(out: &mut Vec<u8>, x: u128, n: usize)
    ensures
        final(out)@ == old(out)@ + le_bytes(x as nat, n as nat),
{
    let mut rest: u128 = x;
    let mut i: usize = 0;
    let ghost goal = out@ + le_bytes(x as nat, n as nat);
    while i < n
        invariant
            i <= n,
            out@ + le_bytes(rest as nat, (n - i) as nat) == goal,
        decreases n - i,
    {
        let ghost before = out@;
        out.push((rest % 256) as u8);
        assert(before + le_bytes(rest as nat, (n - i) as nat) =~= out@ + le_bytes(
            rest as nat / 256,
            (n - i - 1) as nat,
        ));
        rest = rest / 256;
        i = i + 1;
    }
    assert(out@ =~= goal);
}

/// Makes a session code from the time in nanoseconds, the process id and some random
/// bytes.
pub fn generate_code(ts: u128, pid: u32, extra: [u8; 8]) -> (r: String)
    ensures
        r@ == code_text(sha256_digest(code_seed(ts, pid, extra@))),
{
    let mut seed: Vec<u8> = Vec::new();
    push_le_bytes(&mut seed, ts, 16);
    push_le_bytes(&mut seed, pid as u128, 4);
    let ghost start = seed@;
    proof {
        lemma_le_bytes_len(ts as nat, 16);
        lemma_le_bytes_len(pid as nat, 4);
    }
    for i in 0..8usize
        invariant
            seed@ == start + extra@.take(i as int),
    {
        seed.push(extra[i]);
        assert(start + extra@.take(i + 1) =~= (start + extra@.take(i as int)).push(
            extra@[i as int],
        ));
    }
    assert(extra@.take(8) =~= extra@);
    assert(seed@ =~= code_seed(ts, pid, extra@));
    let digest = sha256(seed.as_slice());
    code_of_digest(digest.as_slice())
}

/// The code that a digest gives.
pub fn code_of_digest(digest: &[u8]) -> (r: String)
    requires
        digest@.len() >= CODE_LEN,
    ensures
        r@ == code_text(digest@),
{
    proof {
        reveal_strlit("abcdefghjkmnpqrstuvwxyz23456789");
    }
    let mut out = String::new();
    let n: usize = CODE_CHARS.unicode_len();
    for i in 0..CODE_LEN
        invariant
            digest@.len() >= CODE_LEN,
            n == CODE_CHARS@.len(),
            n == 31,
            out@ == code_text(digest@).take(i as int),
    {
        out.push(CODE_CHARS.get_char((digest[i] as usize) % n));
        assert(code_text(digest@).take(i + 1) =~= code_text(digest@).take(i as int).push(
            code_text(digest@)[i as int],
        ));
    }
    assert(code_text(digest@).take(CODE_LEN as int) =~= code_text(digest@));
    out
}

/// The name of the file that a session is recorded in.
pub open spec fn record_name(code: Seq<char>) -> Seq<char> {
    "herdr-session-"@ + code + ".rec"@
}

/// The name of the file that the session `code` is recorded in.
pub fn record_file_name(code: &str) -> (r: String)
    ensures
        r@ == record_name(code@),
{
    join3("herdr-session-", code, ".rec")
}

proof fn lemma_le_bytes_len(x: nat, n: nat)
    ensures
        le_bytes(x, n).len() == n,
    decreases n,
{
    if n > 0 {
        lemma_le_bytes_len(x / 256, (n - 1) as nat);
    }
}

// ---------------------------------------------------------------------------
// Laws
// ---------------------------------------------------------------------------

/// A code has six characters, small letters and digits, and none that is easily taken
/// for another.
pub proof fn law_code_is_readable(digest: Seq<u8>)
    ensures
        code_text(digest).len() == 6,
        forall|i: int|
            0 <= i < 6 ==> {
                let c = #[trigger] code_text(digest)[i];
                &&& 'a' <= c <= 'z' || '0' <= c <= '9'
                &&& c != 'i' && c != 'l' && c != 'o' && c != '0' && c != '1'
            },
{
    reveal_strlit("abcdefghjkmnpqrstuvwxyz23456789");
    assert forall|i: int| 0 <= i < 6 implies {
        let c = #[trigger] code_text(digest)[i];
        &&& 'a' <= c <= 'z' || '0' <= c <= '9'
        &&& c != 'i' && c != 'l' && c != 'o' && c != '0' && c != '1'
    } by {
        let k = digest[i] as int % 31;
        assert(0 <= k < 31);
        assert(code_text(digest)[i] == CODE_CHARS@[k]);
    }
}

/// A host reads the code that the relay made, and a guest who types it asks the relay for
/// that very session.
pub proof fn law_code_reaches_guest_and_relay(digest: Seq<u8>)
    ensures
        fits_line(code_text(digest)),
        code_of_reply(first_line(code_reply_text(code_text(digest)))) == Some(code_text(digest)),
        request_of(first_line(join_request_text(code_text(digest)))) == RequestView::Join(
            code_text(digest),
        ),
{
    let code = code_text(digest);
    law_code_is_readable(digest);
    assert(!white_space(code[0]) && !white_space(code[5]));
    if code.contains('\n') {
        let k = choose|k: int| 0 <= k < code.len() && code[k] == '\n';
        assert('a' <= code[k] <= 'z' || '0' <= code[k] <= '9');
    }
    assert(is_bare(code));
    law_trim_keeps_bare(code);
    law_code_reply_is_understood(code);
    law_join_request_is_understood(code);
}

/// The number that some bytes hold, least significant first.
pub open spec fn number_in(bytes: Seq<u8>) -> nat
    decreases bytes.len(),
{
    if bytes.len() == 0 {
        0
    } else {
        bytes[0] as nat + 256 * number_in(bytes.drop_first())
    }
}

/// How many numbers `n` bytes can hold.
pub open spec fn numbers_of(n: nat) -> nat
    decreases n,
{
    if n == 0 {
        1
    } else {
        256 * numbers_of((n - 1) as nat)
    }
}

/// The bytes of a number hold that number, if there are enough of them.
pub proof fn law_bytes_hold_the_number(x: nat, n: nat)
    requires
        x < numbers_of(n),
    ensures
        le_bytes(x, n).len() == n,
        number_in(le_bytes(x, n)) == x,
    decreases n,
{
    if n > 0 {
        law_bytes_hold_the_number(x / 256, (n - 1) as nat);
        assert(le_bytes(x, n).drop_first() =~= le_bytes(x / 256, (n - 1) as nat));
    }
}

/// Nothing that a code is made from is lost on the way to the digest: two seeds are the same
/// only if the time, the process id and the random bytes are.
pub proof fn law_seed_holds_all_it_is_made_from(
    ts1: u128,
    pid1: u32,
    extra1: Seq<u8>,
    ts2: u128,
    pid2: u32,
    extra2: Seq<u8>,
)
    requires
        extra1.len() == extra2.len(),
    ensures
        code_seed(ts1, pid1, extra1).len() == 20 + extra1.len(),
        number_in(code_seed(ts1, pid1, extra1).take(16)) == ts1,
        number_in(code_seed(ts1, pid1, extra1).subrange(16, 20)) == pid1,
        code_seed(ts1, pid1, extra1).skip(20) == extra1,
        code_seed(ts1, pid1, extra1) == code_seed(ts2, pid2, extra2) ==> ts1 == ts2 && pid1 == pid2
            && extra1 == extra2,
{
    lemma_seed(ts1, pid1, extra1);
    lemma_seed(ts2, pid2, extra2);
}

proof fn lemma_seed(ts: u128, pid: u32, extra: Seq<u8>)
    ensures
        code_seed(ts, pid, extra).len() == 20 + extra.len(),
        number_in(code_seed(ts, pid, extra).take(16)) == ts,
        number_in(code_seed(ts, pid, extra).subrange(16, 20)) == pid,
        code_seed(ts, pid, extra).skip(20) == extra,
{
    reveal_with_fuel(numbers_of, 17);
    assert(numbers_of(4) == 0x1_0000_0000);
    assert(numbers_of(16) == 0x1_0000_0000_0000_0000_0000_0000_0000_0000);
    law_bytes_hold_the_number(ts as nat, 16);
    law_bytes_hold_the_number(pid as nat, 4);
    let seed = code_seed(ts, pid, extra);
    assert(seed.take(16) =~= le_bytes(ts as nat, 16));
    assert(seed.subrange(16, 20) =~= le_bytes(pid as nat, 4));
    assert(seed.skip(20) =~= extra);
}

/// Each of the first bytes of a digest gives one character, in order, by its place in the
/// alphabet; two bytes give the same character only if they are as far into the alphabet.
pub proof fn law_each_byte_gives_its_character(digest: &[u8], other: &[u8], r: String, q: String)
    requires
        call_ensures(code_of_digest, (digest,), r),
        call_ensures(code_of_digest, (other,), q),
    ensures
        r@.len() == 6,
        forall|i: int|
            0 <= i < 6 ==> #[trigger] r@[i] == "abcdefghjkmnpqrstuvwxyz23456789"@[digest@[i] as int
                % 31],
        forall|i: int, j: int|
            0 <= i < 6 && 0 <= j < 6 ==> (#[trigger] r@[i] == #[trigger] q@[j] <==> digest@[i] as int
                % 31 == other@[j] as int % 31),
{
    reveal_strlit("abcdefghjkmnpqrstuvwxyz23456789");
    let chars = "abcdefghjkmnpqrstuvwxyz23456789"@;
    assert(CODE_CHARS@ == chars);
    assert forall|i: int| 0 <= i < 6 implies #[trigger] r@[i] == chars[digest@[i] as int % 31] by {}
    assert forall|i: int| 0 <= i < 6 implies #[trigger] q@[i] == chars[other@[i] as int % 31] by {}
    assert forall|k: int, l: int| 0 <= k < 31 && 0 <= l < 31 && k != l implies #[trigger] chars[k]
        != #[trigger] chars[l] by {}
}

/// A session's recording is named after its code.
pub proof fn law_recording_is_named_after_its_code(code: &str, r: String)
    requires
        call_ensures(record_file_name, (code,), r),
    ensures
        r@ == "herdr-session-"@ + code@ + ".rec"@,
{
}

/// A code is that of the digest of the seed: the time in its first bytes, least significant
/// first, then the process id, then the random bytes.
pub proof fn law_code_is_that_of_the_seeds_digest(
    ts: u128,
    pid: u32,
    extra: [u8; 8],
    seed: Seq<u8>,
    digest: &[u8],
    r: String,
    q: String,
)
    requires
        call_ensures(generate_code, (ts, pid, extra), r),
        call_ensures(code_of_digest, (digest,), q),
        seed.len() == 28,
        number_in(seed.take(16)) == ts,
        number_in(seed.subrange(16, 20)) == pid,
        seed.skip(20) == extra@,
        digest@ == sha256_digest(seed),
    ensures
        r@ == q@,
{
    let made = code_seed(ts, pid, extra@);
    lemma_seed(ts, pid, extra@);
    lemma_number_in_is_unique(seed.take(16), made.take(16));
    lemma_number_in_is_unique(seed.subrange(16, 20), made.subrange(16, 20));
    assert(seed =~= seed.take(16) + seed.subrange(16, 20) + seed.skip(20));
    assert(made =~= made.take(16) + made.subrange(16, 20) + made.skip(20));
}

proof fn lemma_number_in_is_unique(a: Seq<u8>, b: Seq<u8>)
    requires
        a.len() == b.len(),
        number_in(a) == number_in(b),
    ensures
        a == b,
    decreases a.len(),
{
    if a.len() > 0 {
        assert(a[0] == b[0]);
        lemma_number_in_is_unique(a.drop_first(), b.drop_first());
        assert(a =~= seq![a[0]] + a.drop_first());
        assert(b =~= seq![b[0]] + b.drop_first());
    } else {
        assert(a =~= b);
    }
}

} // verus!
