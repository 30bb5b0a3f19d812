//! Framing of an event stream: from the bytes of one chunk to the payloads
//! of the records that it holds.
//!
//! A chunk is cut at every blank line, that is at every pair of line feeds,
//! taken from the left. A block that begins with the marker `data:` is a
//! record; its payload is what follows the marker, without the blanks
//! around it. Every other block is dropped.
//!
//! Each chunk is framed by itself: nothing is kept from one chunk to the
//! next, so a record that is split across two chunks is lost.

use vstd::prelude::*;
use vstd::slice::{slice_subrange, slice_to_vec};

verus! {

pub const LINE_FEED: u8 = 0x0a;

pub const CARRIAGE_RETURN: u8 = 0x0d;

pub const TAB: u8 = 0x09;

pub const SPACE: u8 = 0x20;

/// The bytes of `data:`, which open a record.
pub open spec fn marker() -> Seq<u8> {
    seq![0x64u8, 0x61u8, 0x74u8, 0x61u8, 0x3au8]
}

/// Space, tab, line feed and carriage return are blanks.
pub open spec fn is_blank(byte: u8) -> bool {
    byte == SPACE || byte == TAB || byte == LINE_FEED || byte == CARRIAGE_RETURN
}

/// Whether a blank line starts at `i`.
pub open spec fn break_at(s: Seq<u8>, i: int) -> bool {
    0 <= i && i + 1 < s.len() && s[i] == LINE_FEED && s[i + 1] == LINE_FEED
}

/// Where the first blank line of `s` starts, or the length of `s` if it has
/// none.
pub open spec fn first_break(s: Seq<u8>) -> int
    decreases s.len(),
{
    if s.len() < 2 {
        s.len() as int
    } else if s[0] == LINE_FEED && s[1] == LINE_FEED {
        0
    } else {
        1 + first_break(s.skip(1))
    }
}

/// The blocks between the blank lines of `s`. There is always at least one.
pub open spec fn blocks(s: Seq<u8>) -> Seq<Seq<u8>>
    decreases s.len(),
{
    let cut = first_break(s);
    if 0 <= cut && cut + 2 <= s.len() {
        seq![s.take(cut)] + blocks(s.skip(cut + 2))
    } else {
        seq![s]
    }
}

/// `s` without the blanks at its start.
pub open spec fn trim_start(s: Seq<u8>) -> Seq<u8>
    decreases s.len(),
{
    if s.len() > 0 && is_blank(s[0]) {
        trim_start(s.skip(1))
    } else {
        s
    }
}

/// `s` without the blanks at its end.
pub open spec fn trim_end(s: Seq<u8>) -> Seq<u8>
    decreases s.len(),
{
    if s.len() > 0 && is_blank(s.last()) {
        trim_end(s.drop_last())
    } else {
        s
    }
}

/// `s` without the blanks around it.
pub open spec fn trim(s: Seq<u8>) -> Seq<u8> {
    trim_end(trim_start(s))
}

/// The payload of a block, if the block is a record.
pub open spec fn payload(block: Seq<u8>) -> Option<Seq<u8>> {
    if marker().is_prefix_of(block) {
        Some(trim(block.skip(5)))
    } else {
        None
    }
}

/// The payload of a block as a sequence of one or no element.
pub open spec fn payload_seq(block: Seq<u8>) -> Seq<Seq<u8>> {
    match payload(block) {
        Some(p) => seq![p],
        None => seq![],
    }
}

/// The payloads of the records among `list`, in order.
pub open spec fn payloads(list: Seq<Seq<u8>>) -> Seq<Seq<u8>>
    decreases list.len(),
{
    if list.len() == 0 {
        seq![]
    } else {
        payload_seq(list[0]) + payloads(list.skip(1))
    }
}

/// The payloads of the records of one chunk, in order.
pub open spec fn records(chunk: Seq<u8>) -> Seq<Seq<u8>> {
    payloads(blocks(chunk))
}

/// What a list of byte vectors holds.
pub open spec fn byte_views(list: Seq<Vec<u8>>) -> Seq<Seq<u8>> {
    list.map_values(|v: Vec<u8>| v@)
}

/// `first_break` is in range, no blank line starts before it, and one
/// starts at it unless it is the length.
proof fn lemma_first_break(s: Seq<u8>)
    ensures
        0 <= first_break(s) <= s.len(),
        forall|j: int| 0 <= j < first_break(s) ==> !break_at(s, j),
        first_break(s) < s.len() ==> break_at(s, first_break(s)),
    decreases s.len(),
{
    if s.len() < 2 {
    } else if s[0] == LINE_FEED && s[1] == LINE_FEED {
    } else {
        let rest = s.skip(1);
        lemma_first_break(rest);
        assert forall|j: int| 0 <= j < first_break(s) implies !break_at(s, j) by {
            if j > 0 {
                assert(!break_at(rest, j - 1));
            }
        }
    }
}

/// The first place at which a blank line starts, or the length where none
/// does, is `first_break`.
proof fn lemma_first_break_is(s: Seq<u8>, k: int)
    requires
        0 <= k <= s.len(),
        forall|j: int| 0 <= j < k ==> !break_at(s, j),
        k < s.len() ==> break_at(s, k),
    ensures
        first_break(s) == k,
{
    lemma_first_break(s);
    let x = first_break(s);
    if x < k {
        assert(break_at(s, x));
    } else if x > k {
        assert(break_at(s, k));
    }
}

/// A chunk with a blank line: its records are those of the block before the
/// first blank line, then those of what follows the blank line.
proof fn lemma_records_cut(s: Seq<u8>)
    requires
        first_break(s) < s.len(),
    ensures
        records(s) == payload_seq(s.take(first_break(s))) + records(s.skip(first_break(s) + 2)),
{
    lemma_first_break(s);
    let cut = first_break(s);
    let head = seq![s.take(cut)];
    let tail = blocks(s.skip(cut + 2));
    assert(blocks(s) == head + tail);
    assert((head + tail).skip(1) =~= tail);
}

/// A chunk without a blank line is one block.
proof fn lemma_records_whole(s: Seq<u8>)
    requires
        first_break(s) == s.len(),
    ensures
        records(s) == payload_seq(s),
{
    assert(blocks(s) == seq![s]);
    assert(seq![s].skip(1) =~= Seq::<Seq<u8>>::empty());
    assert(payloads(seq![s].skip(1)) == Seq::<Seq<u8>>::empty());
}

/// Whether `s` ends where a block ends: `s` is empty, or the last of its
/// blank lines, taken from the left, is its end.
pub open spec fn aligned(s: Seq<u8>) -> bool
    decreases s.len(),
{
    let cut = first_break(s);
    s.len() == 0 || (0 <= cut && cut + 2 <= s.len() && aligned(s.skip(cut + 2)))
}

/// The bytes of a sequence of chunks, as one stream.
pub open spec fn stream_bytes(chunks: Seq<Seq<u8>>) -> Seq<u8>
    decreases chunks.len(),
{
    if chunks.len() == 0 {
        seq![]
    } else {
        chunks[0] + stream_bytes(chunks.skip(1))
    }
}

/// The payloads of the records of each chunk, chunk after chunk.
pub open spec fn chunk_records(chunks: Seq<Seq<u8>>) -> Seq<Seq<u8>>
    decreases chunks.len(),
{
    if chunks.len() == 0 {
        seq![]
    } else {
        records(chunks[0]) + chunk_records(chunks.skip(1))
    }
}

/// Bytes that end where a block ends can be framed apart from what follows
/// them: the records of the whole are theirs and then those of the rest.
pub proof fn law_records_after_aligned(a: Seq<u8>, b: Seq<u8>)
    requires
        aligned(a),
    ensures
        records(a + b) == records(a) + records(b),
    decreases a.len(),
{
    if a.len() == 0 {
        assert(a + b =~= b);
        lemma_records_whole(a);
        assert(records(a) + records(b) =~= records(b));
    } else {
        lemma_first_break(a);
        let cut = first_break(a);
        let whole = a + b;
        assert forall|j: int| 0 <= j < cut implies !break_at(whole, j) by {
            assert(!break_at(a, j));
        }
        assert(break_at(a, cut));
        assert(break_at(whole, cut));
        lemma_first_break_is(whole, cut);
        lemma_records_cut(whole);
        lemma_records_cut(a);
        assert(whole.take(cut) =~= a.take(cut));
        assert(whole.skip(cut + 2) =~= a.skip(cut + 2) + b);
        law_records_after_aligned(a.skip(cut + 2), b);
        let head = payload_seq(a.take(cut));
        assert(head + (records(a.skip(cut + 2)) + records(b)) =~= (head + records(
            a.skip(cut + 2),
        )) + records(b));
    }
}

/// Where no record is split across two chunks, that is where every chunk
/// but the last ends where a block ends, framing chunk by chunk finds the
/// records of the stream.
pub proof fn law_chunking_keeps_records(chunks: Seq<Seq<u8>>)
    requires
        forall|i: int| 0 <= i < chunks.len() - 1 ==> aligned(#[trigger] chunks[i]),
    ensures
        chunk_records(chunks) == records(stream_bytes(chunks)),
    decreases chunks.len(),
{
    let none = Seq::<u8>::empty();
    if chunks.len() == 0 {
        lemma_records_whole(none);
        assert(records(none) =~= Seq::<Seq<u8>>::empty());
    } else {
        let rest = chunks.skip(1);
        if rest.len() == 0 {
            assert(chunks[0] + stream_bytes(rest) =~= chunks[0]);
            assert(records(chunks[0]) + chunk_records(rest) =~= records(chunks[0]));
        } else {
            assert forall|i: int| 0 <= i < rest.len() - 1 implies aligned(#[trigger] rest[i]) by {
                assert(rest[i] == chunks[i + 1]);
            }
            law_chunking_keeps_records(rest);
            assert(aligned(chunks[0]));
            law_records_after_aligned(chunks[0], stream_bytes(rest));
        }
    }
}

/// Where the first blank line at or after `from` starts, or the length of
/// `chunk` if there is none.
fn find_break(chunk: &[u8], from: usize) -> (cut: usize)
    requires
        from <= chunk.len(),
    ensures
        from <= cut <= chunk.len(),
        cut == from + first_break(chunk@.skip(from as int)),
{
    let ghost rest = chunk@.skip(from as int);
    let mut i: usize = from;
    while i < chunk.len() && i + 1 < chunk.len()
        invariant
            from <= i <= chunk.len(),
            rest == chunk@.skip(from as int),
            forall|j: int| 0 <= j < i - from ==> !break_at(rest, j),
        decreases chunk.len() - i,
    {
        if chunk[i] == LINE_FEED && chunk[i + 1] == LINE_FEED {
            proof {
                assert(break_at(rest, i - from));
                lemma_first_break_is(rest, i - from);
            }
            return i;
        }
        i += 1;
    }
    proof {
        lemma_first_break_is(rest, rest.len() as int);
    }
    chunk.len()
}

/// The payload of a block, if the block is a record.
pub fn payload_of(block: &[u8]) -> (found: Option<Vec<u8>>)
    ensures
        found is Some == payload(block@) is Some,
        found matches Some(p) ==> payload(block@) == Some(p@),
{
    let n: usize = block.len();
    // The marker, byte by byte: d, a, t, a and the colon.
    if n < 5 || block[0] != 0x64 || block[1] != 0x61 || block[2] != 0x74 || block[3] != 0x61
        || block[4] != 0x3a {
        return None;
    }
    assert(marker() =~= block@.subrange(0, 5));
    let mut a: usize = 5;
    while a < n && (block[a] == SPACE || block[a] == TAB || block[a] == LINE_FEED || block[a]
        == CARRIAGE_RETURN)
        invariant
            5 <= a <= n,
            n == block.len(),
            trim_start(block@.skip(5)) == trim_start(block@.skip(a as int)),
        decreases n - a,
    {
        assert(block@.skip(a as int).skip(1) =~= block@.skip(a + 1));
        a += 1;
    }
    assert(trim_start(block@.skip(5)) == block@.skip(a as int));
    let mut b: usize = n;
    while b > a && (block[b - 1] == SPACE || block[b - 1] == TAB || block[b - 1] == LINE_FEED
        || block[b - 1] == CARRIAGE_RETURN)
        invariant
            a <= b <= n,
            n == block.len(),
            trim_end(block@.skip(a as int)) == trim_end(block@.subrange(a as int, b as int)),
        decreases b - a,
    {
        assert(block@.subrange(a as int, b as int).drop_last() =~= block@.subrange(
            a as int,
            b - 1,
        ));
        b -= 1;
    }
    assert(trim_end(block@.skip(a as int)) == block@.subrange(a as int, b as int));
    Some(slice_to_vec(slice_subrange(block, a, b)))
}

/// The payloads of the records of one chunk, in order.
pub fn decode_chunk(chunk: &[u8]) -> (found: Vec<Vec<u8>>)
    ensures
        byte_views(found@) == records(chunk@),
{
    let mut found: Vec<Vec<u8>> = Vec::new();
    let mut start: usize = 0;
    let mut done = false;
    assert(chunk@.skip(0) =~= chunk@);
    while !done
        invariant
            start <= chunk.len(),
            !done ==> records(chunk@) == byte_views(found@) + records(chunk@.skip(start as int)),
            done ==> records(chunk@) == byte_views(found@),
        decreases chunk.len() - start + if done { 0int } else { 1int },
    {
        let ghost rest = chunk@.skip(start as int);
        let ghost before = found@;
        let cut: usize = find_break(chunk, start);
        let block = slice_subrange(chunk, start, cut);
        assert(block@ =~= rest.take(cut - start));
        match payload_of(block) {
            Some(p) => {
                found.push(p);
                assert(byte_views(found@) =~= byte_views(before) + payload_seq(block@));
            },
            None => {
                assert(byte_views(found@) =~= byte_views(before) + payload_seq(block@));
            },
        }
        if cut < chunk.len() {
            proof {
                lemma_first_break(rest);
                lemma_records_cut(rest);
                assert(rest.skip(cut - start + 2) =~= chunk@.skip(cut + 2));
            }
            start = cut + 2;
        } else {
            proof {
                lemma_records_whole(rest);
                assert(rest.take(cut - start) =~= rest);
            }
            done = true;
        }
    }
    found
}

} // verus!
