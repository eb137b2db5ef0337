//! What nodes say to each other when one sends the snapshots of a volume to another.

use crate::agent::replica_target::{
    admits, after_generation, after_snapshot, contacted, ReplicaTarget, ReplicaTargetRegistry, ReplicaTargetView,
};
use crate::agent::volumes::{dataset_of, volume_dataset_path};
use crate::decimal::{decimal, push_decimal};
use crate::text::{from_utf8, same, utf8_error};
use crate::views::opt_view;
use vstd::prelude::*;
use vstd::string::*;
use vstd::utf8::{decode_utf8, encode_utf8, encode_utf8_decode_utf8, encode_utf8_valid_utf8, valid_utf8};

verus! {

pub const ACK_PROCEED: u8 = 0;

pub const ACK_NEED_FULL: u8 = 1;

/// The generation of the sender is lower than one that was accepted before: it was replaced, and should
/// stop sending this replica.
pub const ACK_STALE_GENERATION: u8 = 2;

/// The longest frame. A frame carries a name or a snapshot id, never a snapshot, so a longer one is
/// refused before anything is set aside for it.
pub const MAX_FRAME_BYTES: usize = 4096;

/// What a sender says before a snapshot.
#[derive(Debug, Clone, PartialEq, Eq)]
pub struct Header {
    pub replica_name: String,
    pub snapshot_id: String,
    pub base_snapshot_id: Option<String>,
    pub generation: u64,
}

/// What a [`Header`] holds.
#[verifier::ext_equal]
pub struct HeaderView {
    pub replica_name: Seq<char>,
    pub snapshot_id: Seq<char>,
    pub base_snapshot_id: Option<Seq<char>>,
    pub generation: u64,
}

impl View for Header {
    type V = HeaderView;

    open spec fn view(&self) -> HeaderView {
        HeaderView {
            replica_name: self.replica_name@,
            snapshot_id: self.snapshot_id@,
            base_snapshot_id: opt_view(self.base_snapshot_id),
            generation: self.generation,
        }
    }
}

/// Why there is no header in some bytes.
#[derive(Debug, Clone, PartialEq, Eq)]
pub enum ReadError {
    /// It takes this many bytes, from the beginning, to read on.
    Incomplete(usize),
    /// A frame says that it is this long.
    FrameTooLong(usize),
    /// A frame holds no UTF-8 text, for this reason.
    InvalidUtf8(String),
}

/// What a [`ReadError`] holds.
#[verifier::ext_equal]
pub enum ReadErrorView {
    Incomplete(usize),
    FrameTooLong(usize),
    InvalidUtf8(Seq<char>),
}

impl View for ReadError {
    type V = ReadErrorView;

    open spec fn view(&self) -> ReadErrorView {
        match self {
            ReadError::Incomplete(needed) => ReadErrorView::Incomplete(*needed),
            ReadError::FrameTooLong(len) => ReadErrorView::FrameTooLong(*len),
            ReadError::InvalidUtf8(reason) => ReadErrorView::InvalidUtf8(reason@),
        }
    }
}

impl ReadErrorView {
    pub open spec fn text(self) -> Seq<char> {
        match self {
            ReadErrorView::Incomplete(_) => "the header is not complete"@,
            ReadErrorView::FrameTooLong(len) => "frame length "@ + decimal(len as nat) + " exceeds max of "@
                + decimal(MAX_FRAME_BYTES as nat),
            ReadErrorView::InvalidUtf8(reason) => reason,
        }
    }
}

impl ReadError {
    /// The error in words.
    pub fn message(&self) -> (r: String)
        ensures
            r@ == self@.text(),
    {
        match self {
            ReadError::Incomplete(_) => "the header is not complete".to_owned(),
            ReadError::FrameTooLong(len) => {
                let mut out = "frame length ".to_owned();
                push_decimal(&mut out, *len as u64);
                out.append(" exceeds max of ");
                push_decimal(&mut out, MAX_FRAME_BYTES as u64);
                out
            },
            ReadError::InvalidUtf8(reason) => reason.clone(),
        }
    }
}

/// What there is at some place in some bytes: something and the place behind it, or why there is nothing.
pub enum Found<T> {
    Here(T, int),
    Nothing(ReadErrorView),
}

/// The number that four bytes stand for, the highest first.
pub open spec fn be32(b: Seq<u8>, at: int) -> int {
    b[at] * 0x100_0000 + b[at + 1] * 0x1_0000 + b[at + 2] * 0x100 + b[at + 3]
}

/// The number that eight bytes stand for, the highest first.
pub open spec fn be64(b: Seq<u8>, at: int) -> int {
    be32(b, at) * 0x1_0000_0000 + be32(b, at + 4)
}

/// A number in four bytes, the highest first.
#[verifier::opaque]
pub open spec fn be32_bytes(n: int) -> Seq<u8> {
    seq![
        (n / 0x100_0000 % 0x100) as u8,
        (n / 0x1_0000 % 0x100) as u8,
        (n / 0x100 % 0x100) as u8,
        (n % 0x100) as u8,
    ]
}

/// A number in eight bytes, the highest first.
pub open spec fn be64_bytes(n: int) -> Seq<u8> {
    be32_bytes(n / 0x1_0000_0000) + be32_bytes(n % 0x1_0000_0000)
}

/// A text as a frame: the number of its bytes, and its bytes.
pub open spec fn frame(s: Seq<char>) -> Seq<u8> {
    be32_bytes((encode_utf8(s).len() % 0x1_0000_0000) as int) + encode_utf8(s)
}

/// The frame at a place.
pub open spec fn frame_at(b: Seq<u8>, at: int) -> Found<Seq<char>> {
    if b.len() < at + 4 {
        Found::Nothing(ReadErrorView::Incomplete((at + 4) as usize))
    } else {
        let len = be32(b, at);
        let body = b.subrange(at + 4, at + 4 + len);
        if len > MAX_FRAME_BYTES {
            Found::Nothing(ReadErrorView::FrameTooLong(len as usize))
        } else if b.len() < at + 4 + len {
            Found::Nothing(ReadErrorView::Incomplete((at + 4 + len) as usize))
        } else if !valid_utf8(body) {
            Found::Nothing(ReadErrorView::InvalidUtf8(utf8_error(body)))
        } else {
            Found::Here(decode_utf8(body), at + 4 + len)
        }
    }
}

/// The optional frame at a place: a zero byte, or any other byte and a frame.
pub open spec fn base_at(b: Seq<u8>, at: int) -> Found<Option<Seq<char>>> {
    if b.len() < at + 1 {
        Found::Nothing(ReadErrorView::Incomplete((at + 1) as usize))
    } else if b[at] == 0 {
        Found::Here(None, at + 1)
    } else {
        match frame_at(b, at + 1) {
            Found::Here(s, end) => Found::Here(Some(s), end),
            Found::Nothing(e) => Found::Nothing(e),
        }
    }
}

/// The header at the beginning.
pub open spec fn header_of(b: Seq<u8>) -> Found<HeaderView> {
    match frame_at(b, 0) {
        Found::Nothing(e) => Found::Nothing(e),
        Found::Here(replica_name, a1) => match frame_at(b, a1) {
            Found::Nothing(e) => Found::Nothing(e),
            Found::Here(snapshot_id, a2) => match base_at(b, a2) {
                Found::Nothing(e) => Found::Nothing(e),
                Found::Here(base_snapshot_id, a3) => if b.len() < a3 + 8 {
                    Found::Nothing(ReadErrorView::Incomplete((a3 + 8) as usize))
                } else {
                    Found::Here(
                        HeaderView {
                            replica_name,
                            snapshot_id,
                            base_snapshot_id,
                            generation: be64(b, a3) as u64,
                        },
                        a3 + 8,
                    )
                },
            },
        },
    }
}

/// An optional text as bytes: a zero byte, or another byte and a frame.
pub open spec fn base_bytes(base: Option<Seq<char>>) -> Seq<u8> {
    match base {
        None => seq![0u8],
        Some(s) => seq![1u8] + frame(s),
    }
}

/// A header as bytes.
pub open spec fn header_bytes(h: HeaderView) -> Seq<u8> {
    frame(h.replica_name) + frame(h.snapshot_id) + base_bytes(h.base_snapshot_id) + be64_bytes(h.generation as int)
}

fn push_be32(out: &mut Vec<u8>, n: u32)
    ensures
        final(out)@ == old(out)@ + be32_bytes(n as int),
{
    reveal(be32_bytes);
    out.push((n / 0x100_0000) as u8);
    out.push((n / 0x1_0000 % 0x100) as u8);
    out.push((n / 0x100 % 0x100) as u8);
    out.push((n % 0x100) as u8);
    assert(out@ =~= old(out)@ + be32_bytes(n as int));
}

/// Appends a text as a frame.
pub fn write_len_prefixed(out: &mut Vec<u8>, s: &str)
    ensures
        final(out)@ == old(out)@ + frame(s@),
{
    let bytes = s.as_bytes();
    push_be32(out, (bytes.len() as u64 % 0x1_0000_0000) as u32);
    let ghost base = out@;
    let mut i: usize = 0;
    while i < bytes.len()
        invariant
            bytes@ == encode_utf8(s@),
            i <= bytes@.len(),
            out@ == base + bytes@.take(i as int),
        decreases bytes.len() - i,
    {
        out.push(bytes[i]);
        i = i + 1;
        assert(out@ =~= base + bytes@.take(i as int));
    }
    assert(bytes@.take(i as int) =~= bytes@);
    assert(out@ =~= old(out)@ + frame(s@));
}

/// Appends a header.
pub fn write_header(
    out: &mut Vec<u8>,
    replica_name: &str,
    snapshot_id: &str,
    base_snapshot_id: Option<&str>,
    generation: u64,
)
    ensures
        final(out)@ == old(out)@ + header_bytes(
            HeaderView {
                replica_name: replica_name@,
                snapshot_id: snapshot_id@,
                base_snapshot_id: match base_snapshot_id {
                    Some(base) => Some(base@),
                    None => None,
                },
                generation,
            },
        ),
{
    let ghost h = HeaderView {
        replica_name: replica_name@,
        snapshot_id: snapshot_id@,
        base_snapshot_id: match base_snapshot_id {
            Some(base) => Some(base@),
            None => None,
        },
        generation,
    };
    write_len_prefixed(out, replica_name);
    write_len_prefixed(out, snapshot_id);
    let ghost names = out@;
    match base_snapshot_id {
        None => {
            out.push(0);
            assert(out@ =~= names + seq![0u8]);
        },
        Some(base) => {
            out.push(1);
            write_len_prefixed(out, base);
            assert(out@ =~= names + (seq![1u8] + frame(base@)));
        },
    }
    push_be32(out, (generation / 0x1_0000_0000) as u32);
    push_be32(out, (generation % 0x1_0000_0000) as u32);
    assert(out@ =~= old(out)@ + header_bytes(h));
}

fn get_be32(b: &[u8], at: usize) -> (r: u32)
    requires
        at + 4 <= b@.len(),
    ensures
        r == be32(b@, at as int),
{
    let high: u32 = b[at] as u32 * 0x100_0000 + b[at + 1] as u32 * 0x1_0000;
    high + b[at + 2] as u32 * 0x100 + b[at + 3] as u32
}

/// The frame at a place, and the place behind it.
fn read_frame(input: &[u8], at: usize) -> (r: Result<(String, usize), ReadError>)
    requires
        at <= input@.len(),
        at + MAX_FRAME_BYTES + 16 <= usize::MAX,
    ensures
        match r {
            Ok((s, end)) => frame_at(input@, at as int) == Found::Here(s@, end as int) && end <= input@.len() && end
                <= at + MAX_FRAME_BYTES + 4,
            Err(e) => frame_at(input@, at as int) == Found::<Seq<char>>::Nothing(e@),
        },
{
    if input.len() < at + 4 {
        return Err(ReadError::Incomplete(at + 4));
    }
    let len: usize = get_be32(input, at) as usize;
    if len > MAX_FRAME_BYTES {
        return Err(ReadError::FrameTooLong(len));
    }
    if input.len() < at + 4 + len {
        return Err(ReadError::Incomplete(at + 4 + len));
    }
    let mut body: Vec<u8> = Vec::new();
    let mut i: usize = 0;
    while i < len
        invariant
            i <= len,
            at + 4 + len <= input@.len(),
            at + 4 + len <= usize::MAX,
            body@ == input@.subrange(at + 4, at + 4 + i),
        decreases len - i,
    {
        body.push(input[at + 4 + i]);
        i = i + 1;
        assert(input@.subrange(at + 4, at + 4 + i) =~= input@.subrange(at + 4, at + 3 + i).push(
            input@[at + 3 + i],
        ));
    }
    match from_utf8(body) {
        Ok(s) => Ok((s, at + 4 + len)),
        Err(reason) => Err(ReadError::InvalidUtf8(reason)),
    }
}

/// The frame at the beginning of some bytes, and how long it is.
pub fn read_len_prefixed(input: &[u8]) -> (r: Result<(String, usize), ReadError>)
    ensures
        match r {
            Ok((s, end)) => frame_at(input@, 0) == Found::Here(s@, end as int),
            Err(e) => frame_at(input@, 0) == Found::<Seq<char>>::Nothing(e@),
        },
{
    read_frame(input, 0)
}

/// The header at the beginning of some bytes, and how long it is.
pub fn read_header(input: &[u8]) -> (r: Result<(Header, usize), ReadError>)
    ensures
        match r {
            Ok((h, end)) => header_of(input@) == Found::Here(h@, end as int),
            Err(e) => header_of(input@) == Found::<HeaderView>::Nothing(e@),
        },
{
    let (replica_name, a1) = match read_frame(input, 0) {
        Ok(found) => found,
        Err(e) => {
            return Err(e);
        },
    };
    let (snapshot_id, a2) = match read_frame(input, a1) {
        Ok(found) => found,
        Err(e) => {
            return Err(e);
        },
    };
    if input.len() < a2 + 1 {
        return Err(ReadError::Incomplete(a2 + 1));
    }
    let (base_snapshot_id, a3) = if input[a2] == 0 {
        (None, a2 + 1)
    } else {
        match read_frame(input, a2 + 1) {
            Ok((base, end)) => (Some(base), end),
            Err(e) => {
                return Err(e);
            },
        }
    };
    if input.len() < a3 + 8 {
        return Err(ReadError::Incomplete(a3 + 8));
    }
    let generation: u64 = get_be32(input, a3) as u64 * 0x1_0000_0000 + get_be32(input, a3 + 4) as u64;
    let header = Header { replica_name, snapshot_id, base_snapshot_id, generation };
    Ok((header, a3 + 8))
}

/// What a receiver does with a header.
#[derive(Debug, PartialEq, Eq)]
pub struct Handshake {
    /// The byte to answer with. A snapshot is received only after [`ACK_PROCEED`].
    pub ack: u8,
    /// Where the snapshot goes.
    pub dataset: String,
}

/// The dataset that a replica's volume is received into: a stateful replica has one volume, named `data`.
pub open spec fn replica_dataset(pool: Seq<char>, replica: Seq<char>) -> Seq<char> {
    dataset_of(pool, replica + "-data"@)
}

/// The targets after a sender was contacted.
pub open spec fn targets_contacted(
    targets: Map<Seq<char>, ReplicaTargetView>,
    pool: Seq<char>,
    h: HeaderView,
    peer: Seq<char>,
) -> Map<Seq<char>, ReplicaTargetView> {
    targets.insert(
        h.replica_name,
        contacted(targets, h.replica_name, replica_dataset(pool, h.replica_name), peer),
    )
}

/// The answer to a header, given the last snapshot received: a stale sender is turned away first, then one
/// whose base is another.
pub open spec fn ack_of(
    targets: Map<Seq<char>, ReplicaTargetView>,
    h: HeaderView,
    last_snapshot: Option<Seq<char>>,
) -> u8 {
    if !admits(targets, h.replica_name, h.generation) {
        ACK_STALE_GENERATION
    } else if h.base_snapshot_id != last_snapshot {
        ACK_NEED_FULL
    } else {
        ACK_PROCEED
    }
}

/// The answer to a header that comes from a peer.
pub open spec fn ack_for(
    targets: Map<Seq<char>, ReplicaTargetView>,
    pool: Seq<char>,
    h: HeaderView,
    peer: Seq<char>,
) -> u8 {
    let known = targets_contacted(targets, pool, h, peer);
    ack_of(known, h, known[h.replica_name].last_snapshot)
}

/// The targets after a header was answered.
pub open spec fn targets_answered(
    targets: Map<Seq<char>, ReplicaTargetView>,
    pool: Seq<char>,
    h: HeaderView,
    peer: Seq<char>,
) -> Map<Seq<char>, ReplicaTargetView> {
    after_generation(targets_contacted(targets, pool, h, peer), h.replica_name, h.generation)
}

fn same_opt(a: &Option<String>, b: &Option<String>) -> (r: bool)
    ensures
        r == (opt_view(*a) == opt_view(*b)),
{
    match (a, b) {
        (Some(x), Some(y)) => same(x.as_str(), y.as_str()),
        (None, None) => true,
        _ => false,
    }
}

/// Notes that a header came from `peer_addr`. Returns the dataset that its snapshot goes to, and the target as
/// it is then known.
pub fn contact(targets: &mut ReplicaTargetRegistry, pool: &str, header: &Header, peer_addr: &str) -> (r: (
    String,
    ReplicaTarget,
))
    requires
        old(targets).wf(),
    ensures
        final(targets).wf(),
        r.0@ == replica_dataset(pool@, header@.replica_name),
        r.1@ == final(targets)@[header@.replica_name],
        final(targets)@ == targets_contacted(old(targets)@, pool@, header@, peer_addr@),
{
    let mut volume_name = header.replica_name.clone();
    volume_name.append("-data");
    let dataset = volume_dataset_path(pool, volume_name.as_str());
    let target = targets.ensure(header.replica_name.as_str(), dataset.as_str(), peer_addr);
    (dataset, target)
}

/// Decides on a header whose sender was contacted, by the target as it was known then. The answer is the byte
/// to send back.
pub fn admit_sender(targets: &mut ReplicaTargetRegistry, header: &Header, known: &ReplicaTarget) -> (r: u8)
    requires
        old(targets).wf(),
    ensures
        final(targets).wf(),
        r == ack_of(old(targets)@, header@, known@.last_snapshot),
        final(targets)@ == after_generation(old(targets)@, header@.replica_name, header@.generation),
{
    if !targets.accept_generation(header.replica_name.as_str(), header.generation) {
        return ACK_STALE_GENERATION;
    }
    if !same_opt(&header.base_snapshot_id, &known.last_snapshot) {
        return ACK_NEED_FULL;
    }
    ACK_PROCEED
}

/// Decides on a header that came from `peer_addr`.
pub fn answer_header(targets: &mut ReplicaTargetRegistry, pool: &str, header: &Header, peer_addr: &str) -> (r: Handshake)
    requires
        old(targets).wf(),
    ensures
        final(targets).wf(),
        r.dataset@ == replica_dataset(pool@, header@.replica_name),
        r.ack == ack_for(old(targets)@, pool@, header@, peer_addr@),
        final(targets)@ == targets_answered(old(targets)@, pool@, header@, peer_addr@),
{
    let (dataset, known) = contact(targets, pool, header, peer_addr);
    let ack: u8 = admit_sender(targets, header, &known);
    Handshake { ack, dataset }
}

/// Records that the snapshot of a header was received.
pub fn finish_receive(targets: &mut ReplicaTargetRegistry, header: &Header)
    requires
        old(targets).wf(),
    ensures
        final(targets).wf(),
        final(targets)@ == after_snapshot(old(targets)@, header@.replica_name, header@.snapshot_id),
{
    targets.record_snapshot(header.replica_name.as_str(), header.snapshot_id.as_str());
}

proof fn lemma_be32(n: int)
    requires
        0 <= n < 0x1_0000_0000,
    ensures
        be32_bytes(n).len() == 4,
        be32(be32_bytes(n), 0) == n,
{
    reveal(be32_bytes);
}

proof fn lemma_lengths(s: Seq<char>, n: u64)
    ensures
        frame(s).len() == 4 + encode_utf8(s).len(),
        be64_bytes(n as int).len() == 8,
{
    lemma_be32((encode_utf8(s).len() % 0x1_0000_0000) as int);
    lemma_be32(n as int / 0x1_0000_0000);
    lemma_be32(n as int % 0x1_0000_0000);
}

proof fn lemma_be32_at(b: Seq<u8>, at: int, n: int)
    requires
        0 <= n < 0x1_0000_0000,
        0 <= at,
        at + 4 <= b.len(),
        b.subrange(at, at + 4) == be32_bytes(n),
    ensures
        be32(b, at) == n,
{
    lemma_be32(n);
    let s = be32_bytes(n);
    assert(b[at] == b.subrange(at, at + 4)[0]);
    assert(b[at + 1] == b.subrange(at, at + 4)[1]);
    assert(b[at + 2] == b.subrange(at, at + 4)[2]);
    assert(b[at + 3] == b.subrange(at, at + 4)[3]);
}

/// A frame that stands in some bytes is read back.
proof fn lemma_frame_at(b: Seq<u8>, at: int, s: Seq<char>)
    requires
        0 <= at,
        encode_utf8(s).len() <= MAX_FRAME_BYTES,
        at + frame(s).len() <= b.len(),
        b.subrange(at, at + frame(s).len()) == frame(s),
    ensures
        frame_at(b, at) == Found::Here(s, at + frame(s).len()),
{
    let bytes = encode_utf8(s);
    let f = frame(s);
    lemma_be32(bytes.len() as int);
    assert(b.subrange(at, at + 4) =~= be32_bytes(bytes.len() as int)) by {
        assert forall|i: int| 0 <= i < 4 implies b[at + i] == f[i] by {
            assert(b.subrange(at, at + f.len())[i] == f[i]);
        }
    }
    lemma_be32_at(b, at, bytes.len() as int);
    assert(b.subrange(at + 4, at + 4 + bytes.len()) =~= bytes) by {
        assert forall|i: int| 0 <= i < bytes.len() implies b[at + 4 + i] == bytes[i] by {
            assert(b.subrange(at, at + f.len())[4 + i] == f[4 + i]);
        }
    }
    encode_utf8_valid_utf8(s);
    encode_utf8_decode_utf8(s);
}

/// No text in a header is longer than a frame may be.
pub open spec fn fits_frames(h: HeaderView) -> bool {
    &&& encode_utf8(h.replica_name).len() <= MAX_FRAME_BYTES
    &&& encode_utf8(h.snapshot_id).len() <= MAX_FRAME_BYTES
    &&& h.base_snapshot_id matches Some(base) ==> encode_utf8(base).len() <= MAX_FRAME_BYTES
}

/// A header that was written is read back, whatever follows it, if no text in it is longer than a frame
/// may be.
pub proof fn law_header_round_trip(h: HeaderView, rest: Seq<u8>)
    requires
        fits_frames(h),
    ensures
        header_of(header_bytes(h) + rest) == Found::Here(h, header_bytes(h).len() as int),
{
    let f1 = frame(h.replica_name);
    let f2 = frame(h.snapshot_id);
    let f3 = base_bytes(h.base_snapshot_id);
    let f4 = be64_bytes(h.generation as int);
    lemma_lengths(h.replica_name, h.generation);
    let b = header_bytes(h) + rest;
    lemma_parts(f1, f2, f3, f4, rest);
    assert(b == f1 + f2 + f3 + f4 + rest);
    lemma_frame_at(b, 0, h.replica_name);
    let a1 = f1.len() as int;
    lemma_frame_at(b, a1, h.snapshot_id);
    let a2 = a1 + f2.len();
    let a3 = a2 + f3.len();
    lemma_base_at(b, a2, h.base_snapshot_id);
    lemma_be64_at(b, a3, h.generation as int);
}

/// The beginning of a frame, up to the end of some bytes, is not a frame.
proof fn lemma_frame_cut(b: Seq<u8>, at: int, s: Seq<char>)
    requires
        0 <= at <= b.len() < at + frame(s).len(),
        encode_utf8(s).len() < 0x1_0000_0000,
        b.skip(at) == frame(s).take(b.len() - at),
    ensures
        frame_at(b, at) is Nothing,
        encode_utf8(s).len() <= MAX_FRAME_BYTES && at + frame(s).len() <= usize::MAX ==> needs(
            frame_at(b, at),
            b.len() as int,
            at + frame(s).len(),
        ),
{
    let bytes = encode_utf8(s);
    let f = frame(s);
    lemma_be32(bytes.len() as int);
    if at + 4 <= b.len() {
        assert(b.subrange(at, at + 4) =~= be32_bytes(bytes.len() as int)) by {
            assert forall|i: int| 0 <= i < 4 implies b[at + i] == f[i] by {
                assert(b.skip(at)[i] == f.take(b.len() - at)[i]);
            }
        }
        lemma_be32_at(b, at, bytes.len() as int);
    }
}

/// A frame that stands whole in some bytes is read back, or is too long.
proof fn lemma_frame_whole(b: Seq<u8>, at: int, s: Seq<char>)
    requires
        0 <= at,
        encode_utf8(s).len() < 0x1_0000_0000,
        at + frame(s).len() <= b.len(),
        b.subrange(at, at + frame(s).len()) == frame(s),
    ensures
        frame_at(b, at) == Found::Here(s, at + frame(s).len()) || frame_at(b, at) is Nothing,
        encode_utf8(s).len() <= MAX_FRAME_BYTES ==> frame_at(b, at) == Found::Here(s, at + frame(s).len()),
{
    let bytes = encode_utf8(s);
    let f = frame(s);
    lemma_be32(bytes.len() as int);
    if bytes.len() <= MAX_FRAME_BYTES {
        lemma_frame_at(b, at, s);
    } else {
        assert(b.subrange(at, at + 4) =~= be32_bytes(bytes.len() as int)) by {
            assert forall|i: int| 0 <= i < 4 implies b[at + i] == f[i] by {
                assert(b.subrange(at, at + f.len())[i] == f[i]);
            }
        }
        lemma_be32_at(b, at, bytes.len() as int);
    }
}

/// Nothing was found yet: it takes more bytes than there are, and no more than to an end.
pub open spec fn needs<T>(found: Found<T>, have: int, end: int) -> bool {
    found matches Found::Nothing(ReadErrorView::Incomplete(needed)) && have < needed <= end
}

/// What is cut off from a header is no header. Where no text in it is longer than a frame may be, the beginning
/// of a header asks for more bytes, and never for more than the header has: a reader that reads what is asked
/// for takes no byte of the snapshot behind it. (The number of bytes of a longer text stands in four bytes.)
pub proof fn law_no_beginning_is_a_header(h: HeaderView, n: int)
    requires
        encode_utf8(h.replica_name).len() < 0x1_0000_0000,
        encode_utf8(h.snapshot_id).len() < 0x1_0000_0000,
        h.base_snapshot_id matches Some(base) ==> encode_utf8(base).len() < 0x1_0000_0000,
        0 <= n < header_bytes(h).len(),
    ensures
        header_of(header_bytes(h).take(n)) is Nothing,
        fits_frames(h) ==> needs(header_of(header_bytes(h).take(n)), n, header_bytes(h).len() as int),
{
    let f1 = frame(h.replica_name);
    let f2 = frame(h.snapshot_id);
    let f3 = base_bytes(h.base_snapshot_id);
    let f4 = be64_bytes(h.generation as int);
    let b = header_bytes(h).take(n);
    assert(header_bytes(h) == f1 + f2 + f3 + f4);
    lemma_lengths(h.replica_name, h.generation);
    lemma_lengths(h.snapshot_id, h.generation);
    if let Some(base) = h.base_snapshot_id {
        lemma_lengths(base, h.generation);
    }
    lemma_cut_parts(f1, f2, f3, f4, n);
    let a1 = f1.len() as int;
    let a2 = a1 + f2.len();
    let a3 = a2 + f3.len();
    if n < a1 {
        lemma_frame_cut(b, 0, h.replica_name);
    } else {
        lemma_frame_whole(b, 0, h.replica_name);
        if n < a2 {
            lemma_frame_cut(b, a1, h.snapshot_id);
        } else {
            lemma_frame_whole(b, a1, h.snapshot_id);
            lemma_base_cut(b, a2, h.base_snapshot_id);
        }
    }
}

/// An optional frame at the end of some bytes is read back or too long, or its beginning is none.
proof fn lemma_base_cut(b: Seq<u8>, at: int, base: Option<Seq<char>>)
    requires
        0 <= at <= b.len(),
        base matches Some(s) ==> encode_utf8(s).len() < 0x1_0000_0000,
        at + base_bytes(base).len() <= b.len() ==> b.subrange(at, at + base_bytes(base).len()) == base_bytes(base),
        at + base_bytes(base).len() > b.len() ==> b.skip(at) == base_bytes(base).take(b.len() - at),
    ensures
        at + base_bytes(base).len() <= b.len() ==> base_at(b, at) == Found::Here(base, at + base_bytes(base).len())
            || base_at(b, at) is Nothing,
        at + base_bytes(base).len() > b.len() ==> base_at(b, at) is Nothing,
        at + base_bytes(base).len() <= usize::MAX && (base matches Some(s) ==> encode_utf8(s).len()
            <= MAX_FRAME_BYTES) ==> if at + base_bytes(base).len() <= b.len() {
            base_at(b, at) == Found::Here(base, at + base_bytes(base).len())
        } else {
            needs(base_at(b, at), b.len() as int, at + base_bytes(base).len())
        },
{
    let f = base_bytes(base);
    if at < b.len() {
        assert(b[at] == f[0]) by {
            if at + f.len() <= b.len() {
                assert(b.subrange(at, at + f.len())[0] == f[0]);
            } else {
                assert(b.skip(at)[0] == f.take(b.len() - at)[0]);
            }
        }
        if let Some(s) = base {
            if at + f.len() <= b.len() {
                assert(b.subrange(at + 1, at + 1 + frame(s).len()) =~= frame(s)) by {
                    assert forall|i: int| 0 <= i < frame(s).len() implies b[at + 1 + i] == frame(s)[i] by {
                        assert(b.subrange(at, at + f.len())[1 + i] == f[1 + i]);
                    }
                }
                lemma_frame_whole(b, at + 1, s);
            } else {
                assert(b.skip(at + 1) =~= frame(s).take(b.len() - (at + 1))) by {
                    assert forall|i: int| 0 <= i < b.len() - (at + 1) implies b[at + 1 + i] == frame(s)[i] by {
                        assert(b.skip(at)[1 + i] == f.take(b.len() - at)[1 + i]);
                    }
                }
                lemma_frame_cut(b, at + 1, s);
            }
        }
    }
}

/// What is left of four parts that are cut off somewhere.
proof fn lemma_cut_parts(f1: Seq<u8>, f2: Seq<u8>, f3: Seq<u8>, f4: Seq<u8>, n: int)
    requires
        0 <= n < (f1 + f2 + f3 + f4).len(),
    ensures
        ({
            let b = (f1 + f2 + f3 + f4).take(n);
            let a1 = f1.len() as int;
            let a2 = a1 + f2.len();
            let a3 = a2 + f3.len();
            &&& n < a1 ==> b.skip(0) == f1.take(n)
            &&& a1 <= n ==> b.subrange(0, 0int + f1.len()) == f1
            &&& a1 <= n < a2 ==> b.skip(a1) == f2.take(n - a1)
            &&& a2 <= n ==> b.subrange(a1, a1 + f2.len()) == f2
            &&& a2 <= n < a3 ==> b.skip(a2) == f3.take(n - a2)
            &&& a3 <= n ==> b.subrange(a2, a2 + f3.len()) == f3
        }),
{
    let b = (f1 + f2 + f3 + f4).take(n);
    let a1 = f1.len() as int;
    let a2 = a1 + f2.len();
    let a3 = a2 + f3.len();
    if n < a1 {
        assert(b.skip(0) =~= f1.take(n));
    } else {
        assert(b.subrange(0, 0int + f1.len()) =~= f1);
        if n < a2 {
            assert(b.skip(a1) =~= f2.take(n - a1));
        } else {
            assert(b.subrange(a1, a1 + f2.len()) =~= f2);
            if n < a3 {
                assert(b.skip(a2) =~= f3.take(n - a2));
            } else {
                assert(b.subrange(a2, a2 + f3.len()) =~= f3);
            }
        }
    }
}

proof fn lemma_parts(f1: Seq<u8>, f2: Seq<u8>, f3: Seq<u8>, f4: Seq<u8>, rest: Seq<u8>)
    ensures
        ({
            let b = f1 + f2 + f3 + f4 + rest;
            let a1 = f1.len() as int;
            let a2 = a1 + f2.len();
            let a3 = a2 + f3.len();
            &&& b.subrange(0, 0int + f1.len()) == f1
            &&& b.subrange(a1, a1 + f2.len()) == f2
            &&& b.subrange(a2, a2 + f3.len()) == f3
            &&& b.subrange(a3, a3 + f4.len()) == f4
        }),
{
    let b = f1 + f2 + f3 + f4 + rest;
    let a1 = f1.len() as int;
    let a2 = a1 + f2.len();
    let a3 = a2 + f3.len();
    assert(b.subrange(0, 0int + f1.len()) =~= f1);
    assert(b.subrange(a1, a1 + f2.len()) =~= f2);
    assert(b.subrange(a2, a2 + f3.len()) =~= f3);
    assert(b.subrange(a3, a3 + f4.len()) =~= f4);
}

proof fn lemma_base_at(b: Seq<u8>, at: int, base: Option<Seq<char>>)
    requires
        0 <= at,
        base matches Some(s) ==> encode_utf8(s).len() <= MAX_FRAME_BYTES,
        at + base_bytes(base).len() <= b.len(),
        b.subrange(at, at + base_bytes(base).len()) == base_bytes(base),
    ensures
        base_at(b, at) == Found::Here(base, at + base_bytes(base).len()),
{
    match base {
        None => {
            assert(b.subrange(at, at + 1)[0] == 0);
        },
        Some(s) => {
            let f = seq![1u8] + frame(s);
            assert(b.subrange(at, at + f.len())[0] == 1);
            assert(b.subrange(at + 1, at + 1 + frame(s).len()) =~= frame(s)) by {
                assert forall|i: int| 0 <= i < frame(s).len() implies b[at + 1 + i] == frame(s)[i] by {
                    assert(b.subrange(at, at + f.len())[1 + i] == f[1 + i]);
                }
            }
            lemma_frame_at(b, at + 1, s);
        },
    }
}

proof fn lemma_be64_at(b: Seq<u8>, at: int, n: int)
    requires
        0 <= n < 0x1_0000_0000_0000_0000,
        0 <= at,
        at + 8 <= b.len(),
        b.subrange(at, at + 8) == be64_bytes(n),
    ensures
        be64(b, at) == n,
{
    let high = n / 0x1_0000_0000;
    let low = n % 0x1_0000_0000;
    let s = b.subrange(at, at + 8);
    lemma_be32(high);
    lemma_be32(low);
    assert(b.subrange(at, at + 4) =~= s.subrange(0, 4));
    assert(b.subrange(at + 4, at + 8) =~= s.subrange(4, 8));
    assert(be64_bytes(n).subrange(0, 4) =~= be32_bytes(high));
    assert(be64_bytes(n).subrange(4, 8) =~= be32_bytes(low));
    lemma_be32_at(b, at, high);
    lemma_be32_at(b, at + 4, low);
}

/// A sender whose generation is below one that was accepted is turned away, and changes neither the last
/// snapshot nor the highest generation.
pub proof fn law_stale_senders_are_fenced(
    targets: Map<Seq<char>, ReplicaTargetView>,
    pool: Seq<char>,
    h: HeaderView,
    peer: Seq<char>,
)
    requires
        targets.dom().contains(h.replica_name),
        h.generation < targets[h.replica_name].highest_generation_seen,
    ensures
        ack_for(targets, pool, h, peer) == ACK_STALE_GENERATION,
        ({
            let after = targets_answered(targets, pool, h, peer);
            &&& after.dom().contains(h.replica_name)
            &&& after[h.replica_name].last_snapshot == targets[h.replica_name].last_snapshot
            &&& after[h.replica_name].highest_generation_seen == targets[h.replica_name].highest_generation_seen
        }),
{
}

/// Once a sender was let in, every sender with a lower generation is turned away, whatever was received
/// and whoever else was heard in between.
pub proof fn law_fencing_lasts(
    targets: Map<Seq<char>, ReplicaTargetView>,
    pool: Seq<char>,
    first: HeaderView,
    first_peer: Seq<char>,
    between: Seq<(HeaderView, Seq<char>, bool)>,
    late: HeaderView,
    late_peer: Seq<char>,
)
    requires
        ack_for(targets, pool, first, first_peer) != ACK_STALE_GENERATION,
        late.replica_name == first.replica_name,
        late.generation < first.generation,
    ensures
        ack_for(
            heard(targets_answered(targets, pool, first, first_peer), pool, between),
            pool,
            late,
            late_peer,
        ) == ACK_STALE_GENERATION,
{
    let start = targets_answered(targets, pool, first, first_peer);
    lemma_heard(start, pool, between, first.replica_name);
    law_stale_senders_are_fenced(heard(start, pool, between), pool, late, late_peer);
}

/// The targets after some headers, each with its sender and with whether its snapshot was received.
pub open spec fn heard(
    targets: Map<Seq<char>, ReplicaTargetView>,
    pool: Seq<char>,
    events: Seq<(HeaderView, Seq<char>, bool)>,
) -> Map<Seq<char>, ReplicaTargetView>
    decreases events.len(),
{
    if events.len() == 0 {
        targets
    } else {
        let prior = heard(targets, pool, events.drop_last());
        let (h, peer, received) = events.last();
        let answered = targets_answered(prior, pool, h, peer);
        if received && ack_for(prior, pool, h, peer) == ACK_PROCEED {
            after_snapshot(answered, h.replica_name, h.snapshot_id)
        } else {
            answered
        }
    }
}

proof fn lemma_heard(
    targets: Map<Seq<char>, ReplicaTargetView>,
    pool: Seq<char>,
    events: Seq<(HeaderView, Seq<char>, bool)>,
    name: Seq<char>,
)
    requires
        targets.dom().contains(name),
    ensures
        heard(targets, pool, events).dom().contains(name),
        heard(targets, pool, events)[name].highest_generation_seen >= targets[name].highest_generation_seen,
    decreases events.len(),
{
    if events.len() > 0 {
        lemma_heard(targets, pool, events.drop_last(), name);
    }
}

/// After a received snapshot, the next one is accepted exactly on top of it.
pub proof fn law_increments_chain(
    targets: Map<Seq<char>, ReplicaTargetView>,
    pool: Seq<char>,
    first: HeaderView,
    peer: Seq<char>,
    next: HeaderView,
    next_peer: Seq<char>,
)
    requires
        ack_for(targets, pool, first, peer) == ACK_PROCEED,
        next.replica_name == first.replica_name,
        next.generation >= first.generation,
    ensures
        ack_for(
            after_snapshot(targets_answered(targets, pool, first, peer), first.replica_name, first.snapshot_id),
            pool,
            next,
            next_peer,
        ) == if next.base_snapshot_id == Some(first.snapshot_id) {
            ACK_PROCEED
        } else {
            ACK_NEED_FULL
        },
{
}

/// How a header is laid out: the name and the snapshot, each behind the number of its bytes, a byte that says whether there is a
/// base, the base in the same way if there is one, and the generation. Numbers have their highest byte first, those of bytes
/// four in all and the generation eight.
pub proof fn law_layout_of_headers(h: HeaderView)
    requires
        fits_frames(h),
    ensures
        ({
            let b = header_bytes(h);
            let name = encode_utf8(h.replica_name);
            let snapshot = encode_utf8(h.snapshot_id);
            let base = if h.base_snapshot_id is Some {
                encode_utf8(h.base_snapshot_id->0)
            } else {
                Seq::empty()
            };
            let at = 4 + name.len() as int;
            let flag = at + 4 + snapshot.len();
            let behind = if h.base_snapshot_id is Some {
                flag + 5 + base.len()
            } else {
                flag + 1
            };
            &&& counts(b, 0, name.len()) && b.subrange(4, at) == name
            &&& counts(b, at, snapshot.len()) && b.subrange(at + 4, flag) == snapshot
            &&& b[flag] == 0 <==> h.base_snapshot_id is None
            &&& h.base_snapshot_id is Some ==> counts(b, flag + 1, base.len()) && b.subrange(flag + 5, behind) == base
            &&& b.len() == behind + 8
            &&& h.generation == ((((((b[behind] * 256 + b[behind + 1]) * 256 + b[behind + 2]) * 256 + b[behind + 3]) * 256
                + b[behind + 4]) * 256 + b[behind + 5]) * 256 + b[behind + 6]) * 256 + b[behind + 7]
        }),
{
    let f1 = frame(h.replica_name);
    let f2 = frame(h.snapshot_id);
    let f3 = base_bytes(h.base_snapshot_id);
    let f4 = be64_bytes(h.generation as int);
    let b = header_bytes(h);
    let name = encode_utf8(h.replica_name);
    let snapshot = encode_utf8(h.snapshot_id);
    lemma_lengths(h.replica_name, h.generation);
    lemma_lengths(h.snapshot_id, h.generation);
    lemma_parts(f1, f2, f3, f4, Seq::empty());
    assert(f1 + f2 + f3 + f4 + Seq::empty() =~= b);
    let a1 = f1.len() as int;
    let a2 = a1 + f2.len();
    let a3 = a2 + f3.len();
    lemma_layout_of_frame(b, 0, h.replica_name);
    lemma_layout_of_frame(b, a1, h.snapshot_id);
    assert(b[a2] == b.subrange(a2, a2 + f3.len())[0]);
    if let Some(base) = h.base_snapshot_id {
        lemma_lengths(base, h.generation);
        assert(b.subrange(a2 + 1, a2 + 1 + frame(base).len()) =~= frame(base)) by {
            assert forall|i: int| 0 <= i < frame(base).len() implies b[a2 + 1 + i] == frame(base)[i] by {
                assert(b.subrange(a2, a2 + f3.len())[1 + i] == f3[1 + i]);
            }
        }
        lemma_layout_of_frame(b, a2 + 1, base);
    }
    lemma_be64_at(b, a3, h.generation as int);
}

/// Four bytes, the highest first, hold a number.
pub open spec fn counts(b: Seq<u8>, at: int, n: nat) -> bool {
    n == ((b[at] * 256 + b[at + 1]) * 256 + b[at + 2]) * 256 + b[at + 3]
}

proof fn lemma_layout_of_frame(b: Seq<u8>, at: int, s: Seq<char>)
    requires
        0 <= at,
        encode_utf8(s).len() <= MAX_FRAME_BYTES,
        at + frame(s).len() <= b.len(),
        b.subrange(at, at + frame(s).len()) == frame(s),
    ensures
        counts(b, at, encode_utf8(s).len()),
        b.subrange(at + 4, at + 4 + encode_utf8(s).len()) == encode_utf8(s),
{
    let bytes = encode_utf8(s);
    let f = frame(s);
    lemma_be32(bytes.len() as int);
    assert(b.subrange(at, at + 4) =~= be32_bytes(bytes.len() as int)) by {
        assert forall|i: int| 0 <= i < 4 implies b[at + i] == f[i] by {
            assert(b.subrange(at, at + f.len())[i] == f[i]);
        }
    }
    lemma_be32_at(b, at, bytes.len() as int);
    assert(b.subrange(at + 4, at + 4 + bytes.len()) =~= bytes) by {
        assert forall|i: int| 0 <= i < bytes.len() implies b[at + 4 + i] == bytes[i] by {
            assert(b.subrange(at, at + f.len())[4 + i] == f[4 + i]);
        }
    }
}

/// A frame that says that it is longer than a frame may be is refused, whatever follows, and told how long.
pub proof fn law_long_frames_are_refused(b: Seq<u8>)
    requires
        b.len() >= 4,
    ensures
        forall|n: nat| #[trigger]
            counts(b, 0, n) && n > 4096 ==> frame_at(b, 0) == Found::<Seq<char>>::Nothing(
                ReadErrorView::FrameTooLong(n as usize),
            ),
        frame_at(b, 0) matches Found::Here(s, end) ==> counts(b, 0, (end - 4) as nat) && end <= b.len() && s == decode_utf8(
            b.subrange(4, end),
        ),
{
}

} // verus!
