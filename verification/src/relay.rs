//! The relay: the table of running sessions, what a host's output does to it, and
//! what a joining guest is given.
use crate::channel::{capacity, missed, new_channel, send, sent, subscribe_to};
use std::path::PathBuf;
use tokio::sync::broadcast;
use vstd::hash_map::*;
use vstd::prelude::*;

verus! {

/// The port that a relay listens on unless told otherwise.
pub const DEFAULT_PORT: u16 = 4002;

/// How many chunks the relay keeps for a guest that falls behind.
pub const SESSION_BACKLOG: usize = 1024;

/// `std::path::PathBuf`, opaque: the relay only carries paths.
#[verifier::external_type_specification]
#[verifier::external_body]
pub struct ExPathBuf(PathBuf);

/// One running session.
pub struct Session {
    pub(crate) tx: broadcast::Sender<Vec<u8>>,
    pub(crate) record_path: PathBuf,
    /// How much of the recording is complete. A joining guest takes it together with
    /// its subscription, so that nothing falls between the replay and the live
    /// stream.
    pub(crate) bytes_recorded: u64,
}

/// What a session holds.
pub struct SessionView {
    /// The chunks sent to the guests so far.
    pub sent: Seq<Seq<u8>>,
    /// How many chunks are kept for a guest that falls behind.
    pub capacity: nat,
    /// The file that the host's output is recorded in.
    pub record_path: PathBuf,
    /// How much of the recording is complete.
    pub bytes_recorded: nat,
}

impl View for Session {
    type V = SessionView;

    closed spec fn view(&self) -> SessionView {
        SessionView {
            sent: sent(self.tx),
            capacity: capacity(self.tx),
            record_path: self.record_path,
            bytes_recorded: self.bytes_recorded as nat,
        }
    }
}

/// A session that has just started: nothing sent, nothing recorded.
pub open spec fn started(record_path: PathBuf) -> SessionView {
    SessionView {
        sent: Seq::empty(),
        capacity: SESSION_BACKLOG as nat,
        record_path,
        bytes_recorded: 0,
    }
}

/// A session after the host has put out one more chunk: the guests are sent it in
/// any case, and it counts as recorded only if it was.
pub open spec fn relayed(s: SessionView, chunk: Seq<u8>, recorded: bool) -> SessionView {
    SessionView {
        sent: s.sent.push(chunk),
        bytes_recorded: if recorded {
            s.bytes_recorded + chunk.len()
        } else {
            s.bytes_recorded
        },
        ..s
    }
}

/// The sessions after `code` has been asked for: it starts a session, unless one of that code
/// is running.
pub open spec fn table_started(
    table: Map<Seq<char>, SessionView>,
    code: Seq<char>,
    record_path: PathBuf,
) -> Map<Seq<char>, SessionView> {
    if table.contains_key(code) {
        table
    } else {
        table.insert(code, started(record_path))
    }
}

/// The sessions after the host of `code` has put out one more chunk: nothing happens if
/// that session is not running.
pub open spec fn table_relayed(
    table: Map<Seq<char>, SessionView>,
    code: Seq<char>,
    chunk: Seq<u8>,
    recorded: bool,
) -> Map<Seq<char>, SessionView> {
    if table.contains_key(code) {
        table.insert(code, relayed(table[code], chunk, recorded))
    } else {
        table
    }
}

/// Whether a recorded chunk of `n` bytes can still be counted for the session `code`.
pub open spec fn has_room(table: Map<Seq<char>, SessionView>, code: Seq<char>, n: nat) -> bool {
    table.contains_key(code) ==> table[code].bytes_recorded + n <= u64::MAX
}

/// Sessions in slots, and the slot of each code.
struct Table {
    index: StringHashMap<usize>,
    codes: Vec<String>,
    slots: Vec<Session>,
}

impl Table {
    /// Every code has one slot, and every slot belongs to one code.
    spec fn well_formed(self) -> bool {
        &&& self.codes@.len() == self.slots@.len()
        &&& forall|i: int|
            0 <= i < self.codes@.len() ==> self.index@.contains_key(#[trigger] self.codes@[i]@)
                && self.index@[self.codes@[i]@] == i
        &&& forall|code: Seq<char>| #[trigger]
            self.index@.contains_key(code) ==> self.index@[code] < self.codes@.len()
                && self.codes@[self.index@[code] as int]@ == code
    }

    /// The session of each code.
    spec fn map(self) -> Map<Seq<char>, SessionView> {
        Map::new(
            |code: Seq<char>| self.index@.contains_key(code),
            |code: Seq<char>| self.slots@[self.index@[code] as int]@,
        )
    }

    fn new() -> (r: Self)
        ensures
            r.well_formed(),
            r.map() == Map::<Seq<char>, SessionView>::empty(),
    {
        let r = Table { index: StringHashMap::new(), codes: Vec::new(), slots: Vec::new() };
        assert(r.map() =~= Map::<Seq<char>, SessionView>::empty());
        r
    }

    fn slot(&self, code: &str) -> (r: Option<usize>)
        requires
            self.well_formed(),
        ensures
            match r {
                Some(i) => self.index@.contains_key(code@) && self.index@[code@] == i && i
                    < self.slots@.len(),
                None => !self.index@.contains_key(code@),
            },
    {
        match self.index.get(code) {
            Some(i) => Some(*i),
            None => None,
        }
    }

    fn insert(&mut self, code: String, session: Session)
        requires
            old(self).well_formed(),
            !old(self).index@.contains_key(code@),
        ensures
            final(self).well_formed(),
            final(self).map() == old(self).map().insert(code@, session@),
    {
        let i: usize = self.slots.len();
        self.codes.push(code.clone());
        self.slots.push(session);
        self.index.insert(code, i);
        assert(self.map() =~= old(self).map().insert(code@, session@));
    }

    fn remove(&mut self, code: &str)
        requires
            old(self).well_formed(),
        ensures
            final(self).well_formed(),
            final(self).map() == old(self).map().remove(code@),
    {
        match self.slot(code) {
            Some(i) => {
                self.index.remove(code);
                self.codes.swap_remove(i);
                self.slots.swap_remove(i);
                if i < self.codes.len() {
                    self.index.insert(self.codes[i].clone(), i);
                }
            },
            None => {},
        }
        assert(self.map() =~= old(self).map().remove(code@));
    }
}

impl Table {
    /// Passes one chunk of the host's output on to the guests of slot `i`.
    fn relay(&mut self, i: usize, chunk: Vec<u8>, recorded: bool)
        requires
            old(self).well_formed(),
            i < old(self).slots@.len(),
            recorded ==> old(self).slots@[i as int].bytes_recorded + chunk@.len() <= u64::MAX,
        ensures
            final(self).well_formed(),
            final(self).index == old(self).index,
            final(self).slots@.len() == old(self).slots@.len(),
            final(self).slots@[i as int]@ == relayed(
                old(self).slots@[i as int]@,
                chunk@,
                recorded,
            ),
            forall|j: int|
                0 <= j < final(self).slots@.len() && j != i ==> #[trigger] final(self).slots@[j]
                    == old(self).slots@[j],
    {
        if recorded {
            let n: u64 = chunk.len() as u64;
            self.slots[i].bytes_recorded += n;
        }
        send(&mut self.slots[i].tx, chunk);
    }
}

/// What a guest is given when it joins.
pub struct Joined<'a> {
    /// The live stream.
    pub rx: broadcast::Receiver<Vec<u8>>,
    /// The recording.
    pub record_path: &'a PathBuf,
    /// How much of the recording comes before the live stream.
    pub replay_until: u64,
}

/// The running sessions by code.
pub struct Sessions {
    table: Table,
}

impl View for Sessions {
    type V = Map<Seq<char>, SessionView>;

    closed spec fn view(&self) -> Map<Seq<char>, SessionView> {
        self.table.map()
    }
}

impl Sessions {
    #[verifier::type_invariant]
    spec fn well_formed(self) -> bool {
        self.table.well_formed()
    }

    /// A table without sessions.
    pub fn new() -> (r: Self)
        ensures
            r@ == Map::<Seq<char>, SessionView>::empty(),
    {
        Sessions { table: Table::new() }
    }

    /// Whether no running session has this code.
    pub fn is_free(&self, code: &str) -> (r: bool)
        ensures
            r == !self@.contains_key(code@),
    {
        proof {
            use_type_invariant(self);
        }
        self.table.slot(code).is_none()
    }

    /// Starts the session `code`, whose output is recorded in `record_path`. A code belongs to
    /// its session as long as that runs: with the code of a running session nothing
    /// happens, and the result says so.
    pub fn open_session(&mut self, code: String, record_path: PathBuf) -> (r: bool)
        ensures
            r == !old(self)@.contains_key(code@),
            final(self)@ == table_started(old(self)@, code@, record_path),
    {
        proof {
            use_type_invariant(&*self);
        }
        if !self.is_free(code.as_str()) {
            return false;
        }
        let session = Session { tx: new_channel(SESSION_BACKLOG), record_path, bytes_recorded: 0 };
        let mut table = Table::new();
        std::mem::swap(&mut table, &mut self.table);
        table.insert(code, session);
        self.table = table;
        true
    }

    /// Ends the session `code`.
    pub fn close_session(&mut self, code: &str)
        ensures
            final(self)@ == old(self)@.remove(code@),
    {
        proof {
            use_type_invariant(&*self);
        }
        let mut table = Table::new();
        std::mem::swap(&mut table, &mut self.table);
        table.remove(code);
        self.table = table;
    }

    /// Whether `n` more recorded bytes can be counted for the session `code`: always,
    /// if it is not running.
    pub fn can_record(&self, code: &str, n: usize) -> (r: bool)
        ensures
            r == has_room(self@, code@, n as nat),
    {
        proof {
            use_type_invariant(self);
        }
        match self.table.slot(code) {
            Some(i) => self.table.slots[i].bytes_recorded <= u64::MAX - n as u64,
            None => true,
        }
    }

    /// Passes one chunk of the host's output on to the guests of the session `code`, if
    /// it is still running. `recorded` says whether the chunk has been written to the
    /// recording.
    pub fn relay_chunk(&mut self, code: &str, chunk: Vec<u8>, recorded: bool)
        requires
            recorded ==> has_room(old(self)@, code@, chunk@.len()),
        ensures
            final(self)@ == table_relayed(old(self)@, code@, chunk@, recorded),
    {
        proof {
            use_type_invariant(&*self);
        }
        let mut table = Table::new();
        std::mem::swap(&mut table, &mut self.table);
        let ghost before = table;
        match table.slot(code) {
            Some(i) => {
                table.relay(i, chunk, recorded);
                assert(table.map() =~= before.map().insert(
                    code@,
                    relayed(before.map()[code@], chunk@, recorded),
                )) by {
                    assert forall|other: Seq<char>|
                        before.index@.contains_key(other) && other != code@ implies
                        before.index@[other] != i by {
                        assert(before.codes@[before.index@[other] as int]@ == other);
                        assert(before.codes@[i as int]@ == code@);
                    }
                }
            },
            None => {},
        }
        self.table = table;
    }

    /// Lets a guest into the session `code`: its subscription, and how much of the
    /// recording precedes it. `None` if there is no such session.
    pub fn join_session(&self, code: &str) -> (r: Option<Joined<'_>>)
        ensures
            match r {
                Some(joined) => {
                    &&& self@.contains_key(code@)
                    &&& missed(joined.rx) == self@[code@].sent
                    &&& *joined.record_path == self@[code@].record_path
                    &&& joined.replay_until == self@[code@].bytes_recorded
                },
                None => !self@.contains_key(code@),
            },
    {
        proof {
            use_type_invariant(self);
        }
        match self.table.slot(code) {
            Some(i) => {
                let session = &self.table.slots[i];
                Some(
                    Joined {
                        rx: subscribe_to(&session.tx),
                        record_path: &session.record_path,
                        replay_until: session.bytes_recorded,
                    },
                )
            },
            None => None,
        }
    }
}

// ---------------------------------------------------------------------------
// Laws
// ---------------------------------------------------------------------------

/// The bytes of a sequence of chunks.
pub open spec fn bytes_of(chunks: Seq<Seq<u8>>) -> Seq<u8>
    decreases chunks.len(),
{
    if chunks.len() == 0 {
        Seq::empty()
    } else {
        bytes_of(chunks.drop_last()) + chunks.last()
    }
}

/// A session after the host has put out `output`: chunks, and whether each was
/// recorded.
pub open spec fn relayed_all(s: SessionView, output: Seq<(Seq<u8>, bool)>) -> SessionView
    decreases output.len(),
{
    if output.len() == 0 {
        s
    } else {
        relayed(relayed_all(s, output.drop_last()), output.last().0, output.last().1)
    }
}

/// The chunks of a host's output.
pub open spec fn chunks_of(output: Seq<(Seq<u8>, bool)>) -> Seq<Seq<u8>> {
    output.map_values(|c: (Seq<u8>, bool)| c.0)
}

/// The bytes of a host's output that were recorded.
pub open spec fn recorded_bytes(output: Seq<(Seq<u8>, bool)>) -> Seq<u8>
    decreases output.len(),
{
    if output.len() == 0 {
        Seq::empty()
    } else if output.last().1 {
        recorded_bytes(output.drop_last()) + output.last().0
    } else {
        recorded_bytes(output.drop_last())
    }
}

/// What a guest gets to see: the start of the recording, then the chunks sent after
/// its subscription.
pub open spec fn guest_output(
    recording: Seq<u8>,
    replay_until: nat,
    missed: Seq<Seq<u8>>,
    sent: Seq<Seq<u8>>,
) -> Seq<u8> {
    recording.take(replay_until as int) + bytes_of(sent.skip(missed.len() as int))
}

/// Sessions do not touch one another: what happens to one leaves the others as they are,
/// and output without a session goes nowhere.
pub proof fn law_sessions_are_independent(
    table: Map<Seq<char>, SessionView>,
    code: Seq<char>,
    other: Seq<char>,
    record_path: PathBuf,
    chunk: Seq<u8>,
    recorded: bool,
)
    requires
        code != other,
    ensures
        table_started(table, code, record_path).contains_key(other) == table.contains_key(other),
        table_started(table, code, record_path)[other] == table[other],
        table_relayed(table, code, chunk, recorded).contains_key(other) == table.contains_key(
            other,
        ),
        table_relayed(table, code, chunk, recorded)[other] == table[other],
        table.remove(code).contains_key(other) == table.contains_key(other),
        table.contains_key(other) ==> table.remove(code)[other] == table[other],
        !table.contains_key(code) ==> table_relayed(table, code, chunk, recorded) == table,
{
}

/// A running session keeps its code: starting another of the same code does nothing to it.
pub proof fn law_running_session_keeps_its_code(
    table: Map<Seq<char>, SessionView>,
    code: Seq<char>,
    record_path: PathBuf,
)
    requires
        table.contains_key(code),
    ensures
        table_started(table, code, record_path) == table,
{
}

/// A session can be joined from its start to its end, and not before or after.
pub proof fn law_session_lasts_from_start_to_end(
    table: Map<Seq<char>, SessionView>,
    code: Seq<char>,
    record_path: PathBuf,
    chunk: Seq<u8>,
    recorded: bool,
)
    ensures
        table_started(table, code, record_path).contains_key(code),
        table_relayed(table, code, chunk, recorded).contains_key(code) == table.contains_key(code),
        !table.remove(code).contains_key(code),
        !Map::<Seq<char>, SessionView>::empty().contains_key(code),
{
}

/// A guest that joins after `before` sees all of it that was recorded, then all of
/// `after`: nothing is missing between the replay and the live stream, and nothing
/// comes twice. The recording may be ahead of what is counted: a chunk is written
/// before it is counted.
pub proof fn law_guest_sees_recorded_then_live(
    record_path: PathBuf,
    before: Seq<(Seq<u8>, bool)>,
    after: Seq<(Seq<u8>, bool)>,
    recording: Seq<u8>,
)
    requires
        recorded_bytes(before).is_prefix_of(recording),
    ensures
        ({
            let at_join = relayed_all(started(record_path), before);
            let now = relayed_all(at_join, after);
            guest_output(recording, at_join.bytes_recorded, at_join.sent, now.sent)
                == recorded_bytes(before) + bytes_of(chunks_of(after))
        }),
{
    let at_join = relayed_all(started(record_path), before);
    let now = relayed_all(at_join, after);
    lemma_relayed_all(started(record_path), before);
    lemma_relayed_all(at_join, after);
    assert(recording.take(at_join.bytes_recorded as int) =~= recorded_bytes(before));
    assert(now.sent.skip(at_join.sent.len() as int) =~= chunks_of(after));
}

/// While every chunk is recorded, a guest sees the whole of the host's output, from
/// the first byte on, whenever it joins.
pub proof fn law_guest_sees_everything(
    record_path: PathBuf,
    before: Seq<(Seq<u8>, bool)>,
    after: Seq<(Seq<u8>, bool)>,
    recording: Seq<u8>,
)
    requires
        forall|i: int| 0 <= i < before.len() ==> (#[trigger] before[i]).1,
        bytes_of(chunks_of(before)).is_prefix_of(recording),
    ensures
        ({
            let at_join = relayed_all(started(record_path), before);
            let now = relayed_all(at_join, after);
            guest_output(recording, at_join.bytes_recorded, at_join.sent, now.sent) == bytes_of(
                chunks_of(before + after),
            )
        }),
{
    lemma_all_recorded(before);
    law_guest_sees_recorded_then_live(record_path, before, after, recording);
    assert(chunks_of(before + after) =~= chunks_of(before) + chunks_of(after));
    lemma_bytes_of_concat(chunks_of(before), chunks_of(after));
}

/// What relaying adds to a session.
pub proof fn lemma_relayed_all(s: SessionView, output: Seq<(Seq<u8>, bool)>)
    ensures
        relayed_all(s, output).sent == s.sent + chunks_of(output),
        relayed_all(s, output).bytes_recorded == s.bytes_recorded + recorded_bytes(output).len(),
        relayed_all(s, output).record_path == s.record_path,
        relayed_all(s, output).capacity == s.capacity,
    decreases output.len(),
{
    if output.len() == 0 {
        assert(s.sent + chunks_of(output) =~= s.sent);
    } else {
        lemma_relayed_all(s, output.drop_last());
        assert(chunks_of(output) =~= chunks_of(output.drop_last()).push(output.last().0));
        assert(s.sent + chunks_of(output) =~= (s.sent + chunks_of(output.drop_last())).push(
            output.last().0,
        ));
    }
}

/// While every chunk is recorded, the recorded bytes are all bytes.
pub proof fn lemma_all_recorded(output: Seq<(Seq<u8>, bool)>)
    requires
        forall|i: int| 0 <= i < output.len() ==> (#[trigger] output[i]).1,
    ensures
        recorded_bytes(output) == bytes_of(chunks_of(output)),
    decreases output.len(),
{
    if output.len() > 0 {
        let init = output.drop_last();
        assert forall|i: int| 0 <= i < init.len() implies (#[trigger] init[i]).1 by {
            assert(output[i].1);
        }
        lemma_all_recorded(init);
        assert(output[output.len() - 1].1);
        assert(chunks_of(output).drop_last() =~= chunks_of(init));
    }
}

proof fn lemma_bytes_of_concat(a: Seq<Seq<u8>>, b: Seq<Seq<u8>>)
    ensures
        bytes_of(a + b) == bytes_of(a) + bytes_of(b),
    decreases b.len(),
{
    if b.len() == 0 {
        assert(a + b =~= a);
        assert(bytes_of(a) + bytes_of(b) =~= bytes_of(a));
    } else {
        lemma_bytes_of_concat(a, b.drop_last());
        assert((a + b).drop_last() =~= a + b.drop_last());
        assert(bytes_of(a) + bytes_of(b) =~= bytes_of(a) + bytes_of(b.drop_last()) + b.last());
    }
}

/// A session is there from the moment it is opened, with nothing sent or recorded, and room for
/// a thousand and some chunks for guests that fall behind; opening succeeds just where the code
/// is free. Closing leaves every other session as it is.
pub proof fn law_sessions_are_opened_and_closed(code: String, path: PathBuf, r: bool)
    ensures
        forall|s: &mut Sessions| #[trigger]
            call_ensures(Sessions::open_session, (s, code, path), r) ==> {
                let before = (*s)@;
                let after = (*final(s))@;
                &&& r <==> !before.contains_key(code@)
                &&& after.dom() == before.dom().insert(code@)
                &&& forall|other: Seq<char>|
                    before.contains_key(other) ==> #[trigger] after[other] == before[other]
                &&& r ==> after[code@].sent.len() == 0
                &&& r ==> after[code@].bytes_recorded == 0
                &&& r ==> after[code@].record_path == path
                &&& r ==> after[code@].capacity == 1024
            },
        forall|s: &mut Sessions, name: &str, q: ()| #[trigger]
            call_ensures(Sessions::close_session, (s, name), q) ==> {
                let before = (*s)@;
                let after = (*final(s))@;
                &&& after.dom() == before.dom().remove(name@)
                &&& forall|other: Seq<char>|
                    after.contains_key(other) ==> #[trigger] after[other] == before[other]
            },
        forall|s: Sessions| #[trigger]
            call_ensures(Sessions::new, (), s) ==> s@.dom() == Set::<Seq<char>>::empty(),
{
    assert forall|s: &mut Sessions| #[trigger]
        call_ensures(Sessions::open_session, (s, code, path), r) implies
        (*final(s))@.dom() == (*s)@.dom().insert(code@) by {
        assert((*final(s))@.dom() =~= (*s)@.dom().insert(code@));
    }
    assert forall|s: &mut Sessions, name: &str, q: ()| #[trigger]
        call_ensures(Sessions::close_session, (s, name), q) implies
        (*final(s))@.dom() == (*s)@.dom().remove(name@) by {
        assert((*final(s))@.dom() =~= (*s)@.dom().remove(name@));
    }
    assert forall|s: Sessions| #[trigger] call_ensures(Sessions::new, (), s) implies s@.dom()
        == Set::<Seq<char>>::empty() by {
        assert(s@.dom() =~= Set::<Seq<char>>::empty());
    }
}

/// A chunk of a running session goes to its guests, after all that went before, whether or not
/// it could be recorded; its bytes count as recorded just where it was. Nothing else changes,
/// and without a session nothing at all.
pub proof fn law_chunk_goes_to_the_guests_of_its_session(
    code: &str,
    chunk: Vec<u8>,
    recorded: bool,
    r: (),
)
    ensures
        forall|s: &mut Sessions| #[trigger]
            call_ensures(Sessions::relay_chunk, (s, code, chunk, recorded), r) ==> {
                let before = (*s)@;
                let after = (*final(s))@;
                &&& after.dom() == before.dom()
                &&& forall|other: Seq<char>|
                    before.contains_key(other) && other != code@ ==> #[trigger] after[other]
                        == before[other]
                &&& before.contains_key(code@) ==> {
                    let old_one = before[code@];
                    let new_one = after[code@];
                    &&& new_one.sent == old_one.sent.push(chunk@)
                    &&& recorded ==> new_one.bytes_recorded == old_one.bytes_recorded + chunk@.len()
                    &&& !recorded ==> new_one.bytes_recorded == old_one.bytes_recorded
                    &&& new_one.record_path == old_one.record_path
                    &&& new_one.capacity == old_one.capacity
                }
            },
{
    assert forall|s: &mut Sessions| #[trigger]
        call_ensures(Sessions::relay_chunk, (s, code, chunk, recorded), r) implies
        (*final(s))@.dom() == (*s)@.dom() by {
        assert((*final(s))@.dom() =~= (*s)@.dom());
    }
}

/// A guest is let into every running session, and no other: it receives what is sent from then
/// on, and is to replay all that was recorded until then. A code is free just where it cannot be
/// joined, and a session takes more output until its bytes cannot be counted any more.
pub proof fn law_every_running_session_can_be_joined<'a>(
    sessions: &'a Sessions,
    code: &str,
    n: usize,
    joined: Option<Joined<'a>>,
    free: bool,
    room: bool,
)
    requires
        call_ensures(Sessions::join_session, (sessions, code), joined),
        call_ensures(Sessions::is_free, (sessions, code), free),
        call_ensures(Sessions::can_record, (sessions, code, n), room),
    ensures
        joined is Some <==> sessions@.contains_key(code@),
        free <==> joined is None,
        joined matches Some(j) ==> {
            &&& missed(j.rx) == sessions@[code@].sent
            &&& *j.record_path == sessions@[code@].record_path
            &&& j.replay_until == sessions@[code@].bytes_recorded
        },
        room <==> free || sessions@[code@].bytes_recorded + n <= 0xffff_ffff_ffff_ffff,
{
}

} // verus!
