//! The stream echo handler: one connection, from its first read to its reply.
//!
//! A connection is read in chunks. Each chunk is decoded permissively and
//! added to the text received so far. The first read that fills less than a
//! whole chunk ends the reading, and the text is written back in one piece.
//! Nothing here touches a socket: the caller reads, hands over what it read,
//! and writes the reply it is given.

use crate::text::{decode, lemma_encode_concat, lemma_valid_round_trip, permissive_text};
use vstd::prelude::*;
use vstd::utf8::{encode_utf8, valid_utf8};

verus! {

/// The most bytes asked of a connection in one read.
pub const CHUNK_SIZE: usize = 1024;

/// A read of this many bytes filled less than a whole chunk, which is taken
/// as the sign that the peer has no more to send.
pub open spec fn is_short(bytes_read: nat) -> bool {
    bytes_read < CHUNK_SIZE
}

/// A connection as the contracts see it.
pub enum Session {
    /// Still reading; holds the text received so far.
    Reading(Seq<char>),
    /// Done reading; holds the text that is written back.
    Replied(Seq<char>),
}

/// The session that has read nothing yet.
pub open spec fn fresh() -> Session {
    Session::Reading(Seq::empty())
}

/// The bytes written back to the peer, once the session has replied.
pub open spec fn reply_bytes(session: Session) -> Option<Seq<u8>> {
    match session {
        Session::Reading(_) => None,
        Session::Replied(text) => Some(encode_utf8(text)),
    }
}

/// A reading connection after one more read, given the text decoded from
/// what was read and the number of bytes that the read returned.
pub open spec fn absorbed(text: Seq<char>, decoded: Seq<char>, bytes_read: nat) -> Session {
    if is_short(bytes_read) {
        Session::Replied(text + decoded)
    } else {
        Session::Reading(text + decoded)
    }
}

/// The session after a read that returned `chunk`. A session that has
/// replied reads no more.
pub open spec fn advance(session: Session, chunk: Seq<u8>) -> Session {
    match session {
        Session::Reading(text) => absorbed(text, permissive_text(chunk), chunk.len()),
        Session::Replied(_) => session,
    }
}

/// The session after the reads `chunks`, in the order given.
pub open spec fn run(session: Session, chunks: Seq<Seq<u8>>) -> Session
    decreases chunks.len(),
{
    if chunks.len() == 0 {
        session
    } else {
        advance(run(session, chunks.drop_last()), chunks.last())
    }
}

/// The texts decoded from `chunks`, one after the other.
pub open spec fn gathered(chunks: Seq<Seq<u8>>) -> Seq<char>
    decreases chunks.len(),
{
    if chunks.len() == 0 {
        Seq::empty()
    } else {
        gathered(chunks.drop_last()) + permissive_text(chunks.last())
    }
}

/// No read among `chunks` is short.
pub open spec fn all_full(chunks: Seq<Seq<u8>>) -> bool {
    forall|i: int| 0 <= i < chunks.len() ==> !is_short((#[trigger] chunks[i]).len())
}

/// Every read among `chunks` is valid UTF-8 by itself.
pub open spec fn all_valid(chunks: Seq<Seq<u8>>) -> bool {
    forall|i: int| 0 <= i < chunks.len() ==> valid_utf8(#[trigger] chunks[i])
}

/// `chunks` are the reads of one whole transmission: whole chunks, then one
/// short read, which may be empty.
pub open spec fn is_transmission(chunks: Seq<Seq<u8>>) -> bool {
    &&& chunks.len() > 0
    &&& all_full(chunks.drop_last())
    &&& is_short(chunks.last().len())
}

/// A connection that is still being read.
pub struct Connection {
    text: String,
}

/// What a connection has received, ready to be written back.
pub struct Echo {
    text: String,
}

/// Where a connection stands after a read.
pub enum Progress {
    /// The read filled a whole chunk: read again.
    Reading(Connection),
    /// The read was short: write the echo back and close.
    Finished(Echo),
}

impl View for Connection {
    type V = Seq<char>;

    /// The text received so far.
    closed spec fn view(&self) -> Seq<char> {
        self.text@
    }
}

impl View for Echo {
    type V = Seq<char>;

    /// The whole text received.
    closed spec fn view(&self) -> Seq<char> {
        self.text@
    }
}

impl View for Progress {
    type V = Session;

    open spec fn view(&self) -> Session {
        match self {
            Progress::Reading(connection) => Session::Reading(connection@),
            Progress::Finished(echo) => Session::Replied(echo@),
        }
    }
}

impl Connection {
    /// A connection that has just been accepted.
    pub fn new() -> (connection: Connection)
        ensures
            connection@ == Seq::<char>::empty(),
    {
        Connection { text: String::new() }
    }

    /// The text received so far.
    pub fn text(&self) -> (text: &str)
        ensures
            text@ == self@,
    {
        self.text.as_str()
    }

    /// Takes in the text decoded from one read that returned `bytes_read`
    /// bytes, and decides whether to read on.
    pub fn absorb(self, decoded: &str, bytes_read: usize) -> (progress: Progress)
        ensures
            progress@ == absorbed(self@, decoded@, bytes_read as nat),
    {
        let mut text = self.text;
        text.append(decoded);
        if bytes_read < CHUNK_SIZE {
            Progress::Finished(Echo { text })
        } else {
            Progress::Reading(Connection { text })
        }
    }

    /// Takes in the bytes that one read returned, and decides whether to
    /// read on.
    pub fn on_read(self, chunk: &[u8]) -> (progress: Progress)
        ensures
            progress@ == advance(Session::Reading(self@), chunk@),
    {
        let decoded = decode(chunk);
        self.absorb(decoded.as_str(), chunk.len())
    }
}

impl Echo {
    /// The whole text received, as it is logged.
    pub fn text(&self) -> (text: &str)
        ensures
            text@ == self@,
    {
        self.text.as_str()
    }

    /// The bytes to write back to the peer.
    pub fn payload(&self) -> (payload: Vec<u8>)
        ensures
            payload@ == encode_utf8(self@),
    {
        self.text.as_str().as_bytes_vec()
    }
}

/// As long as every read fills a whole chunk the connection keeps reading,
/// and holds the decoded texts in the order read.
pub proof fn lemma_full_reads_gather(text: Seq<char>, chunks: Seq<Seq<u8>>)
    requires
        all_full(chunks),
    ensures
        run(Session::Reading(text), chunks) == Session::Reading(text + gathered(chunks)),
    decreases chunks.len(),
{
    if chunks.len() > 0 {
        let before = chunks.drop_last();
        assert(all_full(before));
        lemma_full_reads_gather(text, before);
        assert((text + gathered(before)) + permissive_text(chunks.last()) =~= text + gathered(
            chunks,
        ));
    }
}

/// Where every read is valid UTF-8 by itself, the decoded texts encode to
/// the bytes read, end to end.
pub proof fn lemma_gathered_bytes(chunks: Seq<Seq<u8>>)
    requires
        all_valid(chunks),
    ensures
        encode_utf8(gathered(chunks)) == chunks.flatten(),
    decreases chunks.len(),
{
    if chunks.len() > 0 {
        let before = chunks.drop_last();
        assert(all_valid(before));
        lemma_gathered_bytes(before);
        lemma_encode_concat(gathered(before), permissive_text(chunks.last()));
        lemma_valid_round_trip(chunks.last());
        before.lemma_flatten_push(chunks.last());
        assert(before.push(chunks.last()) =~= chunks);
    }
}

/// Round trip: when the reads of one whole transmission are each valid
/// UTF-8, the connection reads all of them, replies once, after the last,
/// and the reply is the bytes received, end to end and nothing else.
pub proof fn lemma_round_trip(chunks: Seq<Seq<u8>>)
    requires
        is_transmission(chunks),
        all_valid(chunks),
    ensures
        reply_bytes(run(fresh(), chunks)) == Some(chunks.flatten()),
        forall|n: int|
            0 <= n < chunks.len() ==> reply_bytes(run(fresh(), #[trigger] chunks.take(n)))
                is None,
{
    let empty = Seq::<char>::empty();
    let before = chunks.drop_last();
    lemma_full_reads_gather(empty, before);
    lemma_gathered_bytes(chunks);
    assert forall|n: int| 0 <= n < chunks.len() implies reply_bytes(
        run(fresh(), #[trigger] chunks.take(n)),
    ) is None by {
        assert(all_full(chunks.take(n)));
        lemma_full_reads_gather(empty, chunks.take(n));
    }
}

/// The chunk boundary: a payload of exactly one chunk, valid UTF-8, is not
/// answered when it has been read, since that read was not short; it is
/// answered whole when the next read finds the connection closed and
/// returns nothing.
pub proof fn lemma_full_chunk_then_close(payload: Seq<u8>)
    requires
        payload.len() == CHUNK_SIZE,
        valid_utf8(payload),
    ensures
        reply_bytes(run(fresh(), seq![payload])) is None,
        reply_bytes(run(fresh(), seq![payload, Seq::empty()])) == Some(payload),
{
    let reads = seq![payload, Seq::<u8>::empty()];
    lemma_round_trip(reads);
    assert(reads.take(1) =~= seq![payload]);
    assert(reads.flatten() =~= payload) by {
        seq![payload].lemma_flatten_push(Seq::<u8>::empty());
        assert(seq![payload].push(Seq::<u8>::empty()) =~= reads);
        seq![payload].lemma_flatten_singleton();
    }
}

/// One reply: a session that has replied stays as it is, whatever is read
/// afterwards.
pub proof fn lemma_reply_is_final(text: Seq<char>, chunks: Seq<Seq<u8>>)
    ensures
        run(Session::Replied(text), chunks) == Session::Replied(text),
    decreases chunks.len(),
{
    if chunks.len() > 0 {
        lemma_reply_is_final(text, chunks.drop_last());
    }
}

/// The reads that belong to connection `id` among the reads of many
/// connections, in the order read. Each item of `schedule` is a connection's
/// number and what one read of that connection returned.
pub open spec fn reads_of(schedule: Seq<(nat, Seq<u8>)>, id: nat) -> Seq<Seq<u8>>
    decreases schedule.len(),
{
    if schedule.len() == 0 {
        Seq::empty()
    } else if schedule.last().0 == id {
        reads_of(schedule.drop_last(), id).push(schedule.last().1)
    } else {
        reads_of(schedule.drop_last(), id)
    }
}

/// Many connections after the reads of `schedule`: each read advances the
/// connection it belongs to, and a read for a connection that is not open
/// changes nothing.
pub open spec fn run_all(sessions: Map<nat, Session>, schedule: Seq<(nat, Seq<u8>)>) -> Map<
    nat,
    Session,
>
    decreases schedule.len(),
{
    if schedule.len() == 0 {
        sessions
    } else {
        let before = run_all(sessions, schedule.drop_last());
        let (id, chunk) = schedule.last();
        if before.contains_key(id) {
            before.insert(id, advance(before[id], chunk))
        } else {
            before
        }
    }
}

/// Independence: however the reads of several connections fall among each
/// other, each connection ends where its own reads alone would have taken
/// it.
pub proof fn lemma_independence(
    sessions: Map<nat, Session>,
    schedule: Seq<(nat, Seq<u8>)>,
    id: nat,
)
    requires
        sessions.contains_key(id),
    ensures
        run_all(sessions, schedule).contains_key(id),
        run_all(sessions, schedule)[id] == run(sessions[id], reads_of(schedule, id)),
    decreases schedule.len(),
{
    if schedule.len() > 0 {
        lemma_independence(sessions, schedule.drop_last(), id);
        if schedule.last().0 == id {
            let mine = reads_of(schedule.drop_last(), id);
            assert(mine.push(schedule.last().1).drop_last() =~= mine);
        }
    }
}

/// Each connection gets back its own payload and nothing of another's:
/// where the reads of a fresh connection make up one whole transmission of
/// valid UTF-8, its reply is those bytes, whatever other connections read
/// in between.
pub proof fn lemma_own_payload_only(
    sessions: Map<nat, Session>,
    schedule: Seq<(nat, Seq<u8>)>,
    id: nat,
)
    requires
        sessions.contains_key(id),
        sessions[id] == fresh(),
        is_transmission(reads_of(schedule, id)),
        all_valid(reads_of(schedule, id)),
    ensures
        reply_bytes(run_all(sessions, schedule)[id]) == Some(reads_of(schedule, id).flatten()),
{
    lemma_independence(sessions, schedule, id);
    lemma_round_trip(reads_of(schedule, id));
}

} // verus!
