//! Messages that lie in several buffers.
use vstd::prelude::*;
use vstd::slice::slice_subrange;

verus! {

/// What the buffers hold.
pub open spec fn contents(bufs: Seq<Vec<u8>>) -> Seq<Seq<u8>> {
    bufs.map_values(|buf: Vec<u8>| buf@)
}

/// The buffers' bytes, one buffer after the other.
pub open spec fn joined(parts: Seq<Seq<u8>>) -> Seq<u8>
    decreases parts.len(),
{
    if parts.len() == 0 {
        Seq::empty()
    } else {
        joined(parts.drop_last()) + parts.last()
    }
}

/// How many bytes the first `n` buffers have room for.
pub open spec fn room(lens: Seq<usize>, n: int) -> int
    decreases n,
{
    if n <= 0 {
        0
    } else {
        room(lens, n - 1) + lens[n - 1]
    }
}

/// Where in `len` bytes the part for buffer `i` starts: behind what the buffers
/// before it have room for, or at the end.
pub open spec fn part_start(lens: Seq<usize>, i: int, len: int) -> int {
    if room(lens, i) <= len {
        room(lens, i)
    } else {
        len
    }
}

/// How `data` is spread over buffers with the given room.
pub open spec fn parts(data: Seq<u8>, lens: Seq<usize>) -> Seq<Seq<u8>> {
    Seq::new(
        lens.len(),
        |i: int|
            data.subrange(
                part_start(lens, i, data.len() as int),
                part_start(lens, i + 1, data.len() as int),
            ),
    )
}

/// Copies the buffers' bytes into one.
pub fn gather(bufs: &Vec<Vec<u8>>) -> (data: Vec<u8>)
    ensures
        data@ == joined(contents(bufs@)),
{
    let mut data: Vec<u8> = Vec::new();
    let mut i: usize = 0;
    let ghost all = contents(bufs@);
    while i < bufs.len()
        invariant
            i <= bufs@.len(),
            all == contents(bufs@),
            data@ == joined(all.take(i as int)),
        decreases bufs@.len() - i,
    {
        let ghost before = data@;
        data.extend_from_slice(bufs[i].as_slice());
        assert(data@ =~= before + bufs@[i as int]@);
        assert(all.take(i + 1).drop_last() =~= all.take(i as int));
        i = i + 1;
    }
    assert(all.take(all.len() as int) =~= all);
    data
}

/// The length of the buffers' bytes, if it is less than `limit`.
pub fn gathered_len(bufs: &Vec<Vec<u8>>, limit: usize) -> (len: Option<usize>)
    ensures
        joined(contents(bufs@)).len() < limit ==> len == Some(
            joined(contents(bufs@)).len() as usize,
        ),
        joined(contents(bufs@)).len() >= limit ==> len is None,
{
    if limit == 0 {
        return None;
    }
    let mut sum: usize = 0;
    let mut i: usize = 0;
    let ghost all = contents(bufs@);
    while i < bufs.len()
        invariant
            i <= bufs@.len(),
            all == contents(bufs@),
            sum == joined(all.take(i as int)).len(),
            sum < limit,
        decreases bufs@.len() - i,
    {
        let n: usize = bufs[i].len();
        proof {
            assert(all.take(i + 1).drop_last() =~= all.take(i as int));
            assert(all.take(i + 1).last() == bufs@[i as int]@);
            lemma_joined_grows(all, i + 1);
        }
        if n >= limit - sum {
            return None;
        }
        sum = sum + n;
        i = i + 1;
    }
    assert(all.take(all.len() as int) =~= all);
    Some(sum)
}

proof fn lemma_joined_grows(all: Seq<Seq<u8>>, n: int)
    requires
        0 <= n <= all.len(),
    ensures
        joined(all.take(n)).len() <= joined(all).len(),
    decreases all.len(),
{
    if n == all.len() {
        assert(all.take(n) =~= all);
    } else {
        lemma_joined_grows(all.drop_last(), n);
        assert(all.drop_last().take(n) =~= all.take(n));
    }
}

/// The parts of `data` that buffers with the given room take up, in order: each
/// takes as much as it has room for, until nothing is left.
pub fn scatter(data: &Vec<u8>, lens: &Vec<usize>) -> (chunks: Vec<Vec<u8>>)
    ensures
        contents(chunks@) == parts(data@, lens@),
{
    let mut chunks: Vec<Vec<u8>> = Vec::new();
    let mut pos: usize = 0;
    let mut i: usize = 0;
    let total: usize = data.len();
    while i < lens.len()
        invariant
            i <= lens@.len(),
            total == data@.len(),
            pos == part_start(lens@, i as int, total as int),
            pos <= total,
            contents(chunks@) == parts(data@, lens@).take(i as int),
        decreases lens@.len() - i,
    {
        let left: usize = total - pos;
        let n: usize = if lens[i] < left {
            lens[i]
        } else {
            left
        };
        let ghost before = chunks@;
        let chunk: Vec<u8> = vstd::slice::slice_to_vec(
            slice_subrange(data.as_slice(), pos, pos + n),
        );
        chunks.push(chunk);
        proof {
            assert(pos + n == part_start(lens@, i + 1, total as int));
            assert(contents(chunks@) =~= contents(before).push(chunk@));
            assert(parts(data@, lens@).take(i + 1) =~= parts(data@, lens@).take(i as int).push(
                parts(data@, lens@)[i as int],
            ));
        }
        pos = pos + n;
        i = i + 1;
    }
    assert(parts(data@, lens@).take(lens@.len() as int) =~= parts(data@, lens@));
    chunks
}

proof fn lemma_parts_joined(data: Seq<u8>, lens: Seq<usize>, n: int)
    requires
        0 <= n <= lens.len(),
    ensures
        0 <= part_start(lens, n, data.len() as int) <= data.len(),
        joined(parts(data, lens).take(n)) == data.take(part_start(lens, n, data.len() as int)),
    decreases n,
{
    let len = data.len() as int;
    if n == 0 {
        assert(data.take(0) =~= Seq::empty());
    } else {
        lemma_parts_joined(data, lens, n - 1);
        let p = parts(data, lens);
        assert(p.take(n).drop_last() =~= p.take(n - 1));
        let a = part_start(lens, n - 1, len);
        let b = part_start(lens, n, len);
        assert(data.take(a) + data.subrange(a, b) =~= data.take(b));
    }
}

/// Spread bytes stay in order and none is lost or repeated: joined again, they
/// are the data, as far as the buffers have room.
pub proof fn law_scatter_keeps_bytes(data: Seq<u8>, lens: Seq<usize>)
    ensures
        room(lens, lens.len() as int) >= data.len() ==> joined(parts(data, lens)) == data,
        room(lens, lens.len() as int) <= data.len() ==> joined(parts(data, lens)) == data.take(
            room(lens, lens.len() as int),
        ),
{
    lemma_parts_joined(data, lens, lens.len() as int);
    assert(parts(data, lens).take(lens.len() as int) =~= parts(data, lens));
    assert(data.take(data.len() as int) =~= data);
}

/// No buffer is handed more than it has room for.
pub proof fn law_scatter_fits(data: Seq<u8>, lens: Seq<usize>, i: int)
    requires
        0 <= i < lens.len(),
    ensures
        parts(data, lens)[i].len() <= lens[i],
{
    lemma_parts_joined(data, lens, i);
    lemma_parts_joined(data, lens, i + 1);
}

/// The sum of lengths.
proof fn lemma_room_is_the_sum(lens: Seq<usize>, n: int)
    requires
        0 <= n <= lens.len(),
    ensures
        room(lens, n) == lens.take(n).fold_left(0int, |sum: int, len: usize| sum + len),
        room(lens, n) >= 0,
    decreases n,
{
    if n > 0 {
        lemma_room_is_the_sum(lens, n - 1);
        assert(lens.take(n).drop_last() =~= lens.take(n - 1));
        assert(lens.take(n).last() == lens[n - 1]);
    }
}

/// Buffers are filled one after the other: a buffer gets a byte only if every
/// buffer before it is full, and it gets as many as it has room for or as are
/// left. The bytes that it gets are those behind the room of the buffers before
/// it.
pub proof fn law_buffers_are_filled_in_order(data: Seq<u8>, lens: Seq<usize>, i: int)
    ensures
        parts(data, lens).len() == lens.len(),
        0 <= i < lens.len() ==> ({
            let before = lens.take(i).fold_left(0int, |sum: int, len: usize| sum + len);
            let part = parts(data, lens)[i];
            &&& data.len() <= before ==> part.len() == 0
            &&& before < data.len() <= before + lens[i] ==> part.len() == data.len() - before
            &&& before + lens[i] < data.len() ==> part.len() == lens[i]
            &&& forall|k: int| 0 <= k < part.len() ==> #[trigger] part[k] == data[before + k]
        }),
{
    if 0 <= i < lens.len() {
        lemma_room_is_the_sum(lens, i);
        lemma_room_is_the_sum(lens, i + 1);
    }
}

/// Joined buffers are the concatenation of what they hold, each at the place that
/// it has among them.
pub proof fn law_joining_concatenates(bufs: Seq<Vec<u8>>)
    ensures
        joined(contents(bufs)) == bufs.map_values(|buf: Vec<u8>| buf@).flatten(),
{
    lemma_joined_is_flattened(contents(bufs));
    contents(bufs).lemma_flatten_and_flatten_alt_are_equivalent();
}

proof fn lemma_joined_is_flattened(parts: Seq<Seq<u8>>)
    ensures
        joined(parts) == parts.flatten_alt(),
    decreases parts.len(),
{
    if parts.len() > 0 {
        lemma_joined_is_flattened(parts.drop_last());
    }
}

/// The buffers' contents are looked at one by one.
pub proof fn law_contents_are_the_buffers(bufs: Seq<Vec<u8>>, i: int)
    requires
        0 <= i < bufs.len(),
    ensures
        contents(bufs).len() == bufs.len(),
        contents(bufs)[i] == bufs[i]@,
{
}

} // verus!
