//! Packing report lines into messages of bounded size.

use crate::text::{char_count, texts};
use vstd::prelude::*;
use vstd::string::*;

verus! {

/// The number of characters that no message may reach.
pub const MAX_CHUNK_CHARS: usize = 2000;

/// The chunks so far, the one being filled included.
pub open spec fn with_current(done: Seq<Seq<char>>, current: Option<Seq<char>>) -> Seq<Seq<char>> {
    match current {
        Some(chunk) => done.push(chunk),
        None => done,
    }
}

/// The chunks made of `lines` when `done` is already finished and `current`
/// is the chunk being filled. A chunk is its lines, each followed by a line
/// break. A line joins the current chunk unless the chunk, the line and the
/// line's break would together reach `max` characters; in that case the
/// chunk is finished and the line starts the next one.
pub open spec fn pack_into(
    done: Seq<Seq<char>>,
    current: Option<Seq<char>>,
    lines: Seq<Seq<char>>,
    max: nat,
) -> Seq<Seq<char>>
    decreases lines.len(),
{
    if lines.len() == 0 {
        with_current(done, current)
    } else {
        let line = lines.first();
        let rest = lines.drop_first();
        match current {
            None => pack_into(done, Some(line + "\n"@), rest, max),
            Some(chunk) => if chunk.len() + line.len() + 1 >= max {
                pack_into(done.push(chunk), Some(line + "\n"@), rest, max)
            } else {
                pack_into(done, Some(chunk + line + "\n"@), rest, max)
            },
        }
    }
}

/// The chunks that `lines` are packed into.
pub open spec fn pack(lines: Seq<Seq<char>>, max: nat) -> Seq<Seq<char>> {
    pack_into(Seq::empty(), None, lines, max)
}

/// The texts of `parts`, one after the other.
pub open spec fn flat(parts: Seq<Seq<char>>) -> Seq<char>
    decreases parts.len(),
{
    if parts.len() == 0 {
        Seq::empty()
    } else {
        flat(parts.drop_last()) + parts.last()
    }
}

/// Each line followed by a line break.
pub open spec fn with_breaks(lines: Seq<Seq<char>>) -> Seq<Seq<char>> {
    lines.map_values(|line: Seq<char>| line + "\n"@)
}

/// What packing keeps, from any point on: the chunks, one after the other,
/// are the lines, each followed by a line break.
pub proof fn lemma_pack_into_keeps(
    done: Seq<Seq<char>>,
    current: Option<Seq<char>>,
    seen: Seq<Seq<char>>,
    lines: Seq<Seq<char>>,
    max: nat,
)
    requires
        current is None ==> done.len() == 0 && seen.len() == 0,
        flat(with_current(done, current)) == flat(with_breaks(seen)),
    ensures
        flat(pack_into(done, current, lines, max)) == flat(with_breaks(seen + lines)),
        (current is Some || lines.len() > 0) ==> pack_into(done, current, lines, max).len() >= 1,
    decreases lines.len(),
{
    if lines.len() == 0 {
        assert(seen + lines =~= seen);
    } else {
        let line = lines.first();
        let rest = lines.drop_first();
        let longer = seen.push(line);
        let broken = line + "\n"@;
        assert(seen + lines =~= longer + rest);
        assert(with_breaks(longer) =~= with_breaks(seen).push(broken));
        assert(with_breaks(longer).drop_last() =~= with_breaks(seen));
        match current {
            None => {
                assert(done.push(broken).drop_last() =~= done);
                assert(with_breaks(seen) =~= Seq::<Seq<char>>::empty());
                lemma_pack_into_keeps(done, Some(broken), longer, rest, max);
            },
            Some(chunk) => {
                let before = done.push(chunk);
                assert(before.drop_last() =~= done);
                if chunk.len() + line.len() + 1 >= max {
                    assert(before.push(broken).drop_last() =~= before);
                    lemma_pack_into_keeps(before, Some(broken), longer, rest, max);
                } else {
                    let grown = chunk + line + "\n"@;
                    let after = done.push(grown);
                    assert(after.drop_last() =~= done);
                    assert(flat(after) =~= flat(before) + broken);
                    lemma_pack_into_keeps(done, Some(grown), longer, rest, max);
                }
            },
        }
    }
}

/// What packing keeps, from any point on: no chunk reaches the limit, where
/// no line does together with its line break.
pub proof fn lemma_pack_into_below(
    done: Seq<Seq<char>>,
    current: Option<Seq<char>>,
    lines: Seq<Seq<char>>,
    max: nat,
)
    requires
        forall|k: int| 0 <= k < lines.len() ==> (#[trigger] lines[k]).len() + 1 < max,
        forall|k: int| 0 <= k < done.len() ==> (#[trigger] done[k]).len() < max,
        current matches Some(chunk) ==> chunk.len() < max,
    ensures
        forall|k: int|
            0 <= k < pack_into(done, current, lines, max).len() ==> (#[trigger] pack_into(
                done,
                current,
                lines,
                max,
            )[k]).len() < max,
    decreases lines.len(),
{
    reveal_strlit("\n");
    let packed = pack_into(done, current, lines, max);
    if lines.len() > 0 {
        let line = lines.first();
        let rest = lines.drop_first();
        assert forall|k: int| 0 <= k < rest.len() implies (#[trigger] rest[k]).len() + 1
            < max by {
            assert(rest[k] == lines[k + 1]);
        }
        assert(lines[0].len() + 1 < max);
        let broken = line + "\n"@;
        assert(broken.len() == line.len() + 1);
        match current {
            None => {
                lemma_pack_into_below(done, Some(broken), rest, max);
                assert(packed == pack_into(done, Some(broken), rest, max));
            },
            Some(chunk) => {
                if chunk.len() + line.len() + 1 >= max {
                    let before = done.push(chunk);
                    assert forall|k: int| 0 <= k < before.len() implies (#[trigger] before[k]).len()
                        < max by {
                        if k < done.len() {
                            assert(before[k] == done[k]);
                        }
                    }
                    lemma_pack_into_below(before, Some(broken), rest, max);
                    assert(packed == pack_into(before, Some(broken), rest, max));
                } else {
                    let grown = chunk + line + "\n"@;
                    assert(grown.len() == chunk.len() + line.len() + 1);
                    lemma_pack_into_below(done, Some(grown), rest, max);
                    assert(packed == pack_into(done, Some(grown), rest, max));
                }
            },
        }
    } else {
        assert(packed == with_current(done, current));
        assert forall|k: int| 0 <= k < packed.len() implies (#[trigger] packed[k]).len() < max by {
            if k < done.len() {
                assert(packed[k] == done[k]);
            }
        }
    }
}

/// Nothing is lost, repeated or moved: the chunks, one after the other,
/// are the lines, each followed by a line break. There is a chunk wherever
/// there is a line.
pub proof fn lemma_pack_keeps_lines(lines: Seq<Seq<char>>, max: nat)
    ensures
        flat(pack(lines, max)) == flat(with_breaks(lines)),
        lines.len() > 0 ==> pack(lines, max).len() >= 1,
{
    assert(Seq::<Seq<char>>::empty() + lines =~= lines);
    lemma_pack_into_keeps(Seq::empty(), None, Seq::empty(), lines, max);
}

/// No chunk reaches the limit, where no line does together with its line
/// break.
pub proof fn lemma_pack_below_limit(lines: Seq<Seq<char>>, max: nat)
    requires
        forall|k: int| 0 <= k < lines.len() ==> (#[trigger] lines[k]).len() + 1 < max,
    ensures
        forall|k: int|
            0 <= k < pack(lines, max).len() ==> (#[trigger] pack(lines, max)[k]).len() < max,
{
    lemma_pack_into_below(Seq::empty(), None, lines, max);
}

/// Packing the same lines again gives the same chunks: where a chunk ends
/// depends on nothing but the lines and the limit.
pub proof fn lemma_pack_again(first: Seq<Seq<char>>, second: Seq<Seq<char>>, max: nat)
    requires
        first == second,
    ensures
        pack(first, max) == pack(second, max),
{
}

/// Packs `lines` into chunks: each chunk holds consecutive lines, each
/// followed by a line break, and a new chunk is begun whenever the next line
/// and its break would bring the current one to `max` characters or more.
/// Each line, with its break, has to stay below `max` by itself.
pub fn render_chunks(lines: &Vec<String>, max: usize) -> (chunks: Vec<String>)
    requires
        forall|k: int| 0 <= k < lines.len() ==> (#[trigger] lines@[k])@.len() + 1 < max,
    ensures
        texts(chunks@) == pack(texts(lines@), max as nat),
        flat(texts(chunks@)) == flat(with_breaks(texts(lines@))),
        forall|k: int| 0 <= k < chunks.len() ==> (#[trigger] chunks@[k])@.len() < max,
        lines.len() > 0 ==> chunks.len() >= 1,
{
    let ghost all = texts(lines@);
    proof {
        reveal_strlit("\n");
        lemma_pack_keeps_lines(all, max as nat);
        assert forall|k: int| 0 <= k < all.len() implies (#[trigger] all[k]).len() + 1 < max by {
            assert(all[k] == lines@[k]@);
        }
        lemma_pack_below_limit(all, max as nat);
        assert(all.skip(0) =~= all);
    }
    let mut chunks: Vec<String> = Vec::new();
    let mut current = String::new();
    let mut length: usize = 0;
    let mut filling = false;
    let mut i: usize = 0;
    assert(texts(chunks@) =~= Seq::<Seq<char>>::empty());
    while i < lines.len()
        invariant
            i <= lines.len(),
            all == texts(lines@),
            forall|k: int| 0 <= k < lines.len() ==> (#[trigger] lines@[k])@.len() + 1 < max,
            "\n"@.len() == 1,
            length == current@.len(),
            filling ==> length < max,
            !filling ==> i == 0 && chunks.len() == 0,
            pack(all, max as nat) == pack_into(
                texts(chunks@),
                if filling {
                    Some(current@)
                } else {
                    None
                },
                all.skip(i as int),
                max as nat,
            ),
        decreases lines.len() - i,
    {
        let line = lines[i].as_str();
        let size = char_count(line);
        proof {
            assert(all.skip(i as int).first() == lines@[i as int]@);
            assert(all.skip(i as int).drop_first() =~= all.skip(i + 1));
        }
        if !filling {
            current = String::from_str(line);
            current.append("\n");
            length = size + 1;
            filling = true;
        } else if size + 1 >= max - length {
            let ghost before = texts(chunks@);
            let ghost full = current@;
            chunks.push(current);
            assert(texts(chunks@) =~= before.push(full));
            current = String::from_str(line);
            current.append("\n");
            length = size + 1;
        } else {
            current.append(line);
            current.append("\n");
            length = length + size + 1;
        }
        i = i + 1;
    }
    proof {
        assert(all.skip(i as int).len() == 0);
    }
    if filling {
        let ghost before = texts(chunks@);
        let ghost full = current@;
        chunks.push(current);
        assert(texts(chunks@) =~= before.push(full));
    }
    proof {
        assert forall|k: int| 0 <= k < chunks.len() implies (#[trigger] chunks@[k])@.len()
            < max by {
            assert(texts(chunks@)[k] == chunks@[k]@);
        }
    }
    chunks
}

} // verus!
