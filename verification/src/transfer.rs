//! Sizing of SFTP transfers: packet lengths negotiated with the server, the
//! chunks in which a file is read or written, and the jars of a listing.

use crate::sync::texts;
use crate::text::{ends_with, spec_ends_with, text_equal};
use vstd::prelude::*;

verus! {

/// Read length when the server states no limits: the 32 KiB packet floor less the READ header.
pub const DEFAULT_READ_LEN: u32 = 32759;

/// Write length when the server states no limits: the 32 KiB packet floor less the WRITE header.
pub const DEFAULT_WRITE_LEN: u32 = 32747;

/// Largest read length used: 256 KiB less the READ header.
pub const MAX_READ_LEN: u64 = 262135;

/// Largest write length used: 256 KiB less the WRITE header.
pub const MAX_WRITE_LEN: u64 = 262123;

/// The limits extension is worth asking for when the server announces it in version "1".
pub fn wants_limits(announced_version: Option<&str>) -> (b: bool)
    ensures
        b == (match announced_version {
            Some(v) => v@ == "1"@,
            None => false,
        }),
{
    match announced_version {
        Some(v) => text_equal(v, "1"),
        None => false,
    }
}

/// One packet length: the default when the server states none (or 0), else
/// the server's limit capped at `cap`.
pub open spec fn spec_packet_len(stated: Option<u64>, default: u32, cap: u64) -> u32 {
    match stated {
        Some(n) => if n > 0 {
            (if n < cap { n } else { cap }) as u32
        } else {
            default
        },
        None => default,
    }
}

/// A packet length is never 0 and never over the cap: the server's limit
/// when it states one within the cap, the cap when it states more, the
/// default when it states none or 0.
pub proof fn law_packet_len(stated: Option<u64>, default: u32, cap: u64)
    requires
        0 < default <= cap <= u32::MAX,
    ensures
        0 < spec_packet_len(stated, default, cap) <= cap,
        stated matches Some(n) ==> (0 < n <= cap ==> spec_packet_len(stated, default, cap) == n),
        stated matches Some(n) ==> (n > cap ==> spec_packet_len(stated, default, cap) == cap),
        (stated is None || stated == Some(0u64)) ==> spec_packet_len(stated, default, cap) == default,
{
}

/// Read and write lengths from the limits the server states (none when it
/// has no limits extension).
pub fn packet_lengths(max_read_len: Option<u64>, max_write_len: Option<u64>) -> (r: (u32, u32))
    ensures
        r.0 == spec_packet_len(max_read_len, DEFAULT_READ_LEN, MAX_READ_LEN),
        r.1 == spec_packet_len(max_write_len, DEFAULT_WRITE_LEN, MAX_WRITE_LEN),
        r.0 > 0,
        r.1 > 0,
{
    let mut read_len: u32 = DEFAULT_READ_LEN;
    let mut write_len: u32 = DEFAULT_WRITE_LEN;
    match max_read_len {
        Some(n) => if n > 0 {
            read_len = (if n < MAX_READ_LEN { n } else { MAX_READ_LEN }) as u32;
        },
        None => {},
    }
    match max_write_len {
        Some(n) => if n > 0 {
            write_len = (if n < MAX_WRITE_LEN { n } else { MAX_WRITE_LEN }) as u32;
        },
        None => {},
    }
    (read_len, write_len)
}

/// The chunks (offset, length) that cover bytes `offset..size` in order,
/// each `len` long except possibly the last.
pub open spec fn chunk_plan(offset: nat, size: nat, len: nat) -> Seq<(nat, nat)>
    decreases size - offset,
{
    if offset >= size || len == 0 {
        seq![]
    } else {
        let want: nat = if size - offset < len { (size - offset) as nat } else { len };
        seq![(offset, want)] + chunk_plan(offset + want, size, len)
    }
}

/// The chunks tile `offset..size`: they begin at `offset`, each begins where
/// the previous ends, the last ends at `size`, and each is 1 to `len` bytes.
pub proof fn law_chunks_tile(offset: nat, size: nat, len: nat)
    requires
        len > 0,
    ensures
        offset >= size ==> chunk_plan(offset, size, len).len() == 0,
        offset < size ==> chunk_plan(offset, size, len).len() > 0 && chunk_plan(offset, size, len)[0].0 == offset
            && chunk_plan(offset, size, len).last().0 + chunk_plan(offset, size, len).last().1 == size,
        forall|k: int|
            0 <= k < chunk_plan(offset, size, len).len() - 1 ==> #[trigger] chunk_plan(offset, size, len)[k + 1].0
                == chunk_plan(offset, size, len)[k].0 + chunk_plan(offset, size, len)[k].1,
        forall|k: int|
            0 <= k < chunk_plan(offset, size, len).len() ==> 0 < #[trigger] chunk_plan(offset, size, len)[k].1 <= len,
    decreases size - offset,
{
    if offset < size {
        let want: nat = if size - offset < len { (size - offset) as nat } else { len };
        let rest = chunk_plan(offset + want, size, len);
        law_chunks_tile(offset + want, size, len);
        let c = chunk_plan(offset, size, len);
        assert(c == seq![(offset, want)] + rest);
        assert forall|k: int| 0 <= k < c.len() - 1 implies #[trigger] c[k + 1].0 == c[k].0 + c[k].1 by {
            if k > 0 {
                assert(c[k] == rest[k - 1]);
                assert(c[k + 1] == rest[k]);
                assert(rest[(k - 1) + 1].0 == rest[k - 1].0 + rest[k - 1].1);
            } else {
                assert(c[1] == rest[0]);
            }
        }
        assert forall|k: int| 0 <= k < c.len() implies 0 < #[trigger] c[k].1 <= len by {
            if k > 0 {
                assert(c[k] == rest[k - 1]);
            }
        }
    }
}

/// Views of chunks.
pub open spec fn chunks_view(s: Seq<(u64, u64)>) -> Seq<(nat, nat)> {
    s.map_values(|c: (u64, u64)| (c.0 as nat, c.1 as nat))
}

/// The chunks in which a file of `size` bytes is read or written, `len` bytes each.
pub fn chunks(size: u64, len: u64) -> (c: Vec<(u64, u64)>)
    requires
        len > 0,
    ensures
        chunks_view(c@) == chunk_plan(0, size as nat, len as nat),
{
    let mut c: Vec<(u64, u64)> = Vec::new();
    let mut offset: u64 = 0;
    while offset < size
        invariant
            len > 0,
            offset <= size,
            chunks_view(c@) + chunk_plan(offset as nat, size as nat, len as nat) == chunk_plan(
                0,
                size as nat,
                len as nat,
            ),
        decreases size - offset,
    {
        let want: u64 = if size - offset < len { size - offset } else { len };
        let ghost before = c@;
        c.push((offset, want));
        assert(chunks_view(c@) =~= chunks_view(before).push((offset as nat, want as nat)));
        assert(chunks_view(c@) + chunk_plan((offset + want) as nat, size as nat, len as nat)
            =~= chunks_view(before) + chunk_plan(offset as nat, size as nat, len as nat));
        offset = offset + want;
    }
    assert(chunks_view(c@) =~= chunks_view(c@) + chunk_plan(offset as nat, size as nat, len as nat));
    c
}

/// The names in a directory listing that end in `.jar`, in order.
pub open spec fn spec_jar_names(names: Seq<Seq<char>>) -> Seq<Seq<char>> {
    names.filter(|n: Seq<char>| spec_ends_with(n, ".jar"@))
}

/// The jars of a listing are exactly its names that consist of some name
/// followed by ".jar", in listing order.
pub proof fn law_jar_names(names: Seq<Seq<char>>, stem: Seq<char>, other: Seq<char>)
    ensures
        forall|n: Seq<char>| #[trigger] spec_jar_names(names).contains(n) <==> names.contains(n) && exists|
            b: Seq<char>,
        | n == b + ".jar"@,
        spec_jar_names(names.push(stem + ".jar"@)) == spec_jar_names(names).push(stem + ".jar"@),
        !spec_ends_with(other, ".jar"@) ==> spec_jar_names(names.push(other)) == spec_jar_names(names),
{
    reveal_strlit(".jar");
    let pred = |n: Seq<char>| spec_ends_with(n, ".jar"@);
    assert forall|n: Seq<char>| #[trigger] spec_jar_names(names).contains(n) <==> names.contains(n) && exists|
        b: Seq<char>,
    | n == b + ".jar"@ by {
        if spec_jar_names(names).contains(n) {
            names.lemma_filter_contains_rev(pred, n);
            let t = choose|t: int| 0 <= t < names.filter(pred).len() && names.filter(pred)[t] == n;
            names.lemma_filter_pred(pred, t);
            let b = n.subrange(0, n.len() - 4);
            assert(n =~= b + ".jar"@);
        }
        if names.contains(n) && exists|b: Seq<char>| n == b + ".jar"@ {
            let b = choose|b: Seq<char>| n == b + ".jar"@;
            assert(n.subrange(n.len() - 4, n.len() as int) =~= ".jar"@);
            let q = choose|q: int| 0 <= q < names.len() && names[q] == n;
            names.lemma_filter_contains(pred, q);
        }
    }
    reveal_with_fuel(Seq::<_>::filter, 1);
    let j = stem + ".jar"@;
    assert(names.push(j).drop_last() =~= names);
    assert(j.subrange(j.len() - 4, j.len() as int) =~= ".jar"@);
    assert(names.push(other).drop_last() =~= names);
}

/// The jar files among the names of a directory listing.
pub fn jar_names(names: &Vec<String>) -> (jars: Vec<String>)
    ensures
        texts(jars@) == spec_jar_names(texts(names@)),
{
    let ghost nv = texts(names@);
    let ghost pred = |n: Seq<char>| spec_ends_with(n, ".jar"@);
    let mut jars: Vec<String> = Vec::new();
    let mut i: usize = 0;
    while i < names.len()
        invariant
            nv == texts(names@),
            pred == (|n: Seq<char>| spec_ends_with(n, ".jar"@)),
            i <= names@.len(),
            texts(jars@) == nv.take(i as int).filter(pred),
        decreases names@.len() - i,
    {
        proof {
            reveal_with_fuel(Seq::<_>::filter, 1);
            assert(nv.take(i + 1).drop_last() =~= nv.take(i as int));
            assert(nv.take(i + 1).last() == names@[i as int]@);
        }
        let ghost before = jars@;
        if ends_with(names[i].as_str(), ".jar") {
            jars.push(names[i].clone());
            assert(texts(jars@) =~= texts(before).push(names@[i as int]@));
        }
        i = i + 1;
    }
    assert(nv.take(names@.len() as int) =~= nv);
    jars
}

/// `buf` with `data` written from offset `off` on.
pub open spec fn write_at(buf: Seq<u8>, off: int, data: Seq<u8>) -> Seq<u8> {
    Seq::new(buf.len(), |i: int| if off <= i < off + data.len() { data[i - off] } else { buf[i] })
}

/// A buffer of `size` zero bytes with the pieces (offset, bytes) written in order.
pub open spec fn fill_pieces(size: nat, pieces: Seq<(u64, Seq<u8>)>) -> Seq<u8>
    decreases pieces.len(),
{
    if pieces.len() == 0 {
        Seq::new(size, |i: int| 0u8)
    } else {
        write_at(fill_pieces(size, pieces.drop_last()), pieces.last().0 as int, pieces.last().1)
    }
}

/// How many bytes the pieces hold together.
pub open spec fn pieces_len(pieces: Seq<(u64, Seq<u8>)>) -> nat
    decreases pieces.len(),
{
    if pieces.len() == 0 {
        0
    } else {
        pieces_len(pieces.drop_last()) + pieces.last().1.len()
    }
}

/// A file of `size` bytes read in pieces: the bytes when the pieces hold
/// exactly `size` bytes together, none (a short read) otherwise.
pub open spec fn spec_assemble(size: nat, pieces: Seq<(u64, Seq<u8>)>) -> Option<Seq<u8>> {
    if pieces_len(pieces) == size {
        Some(fill_pieces(size, pieces))
    } else {
        None
    }
}

/// Views of pieces read from a file.
pub open spec fn pieces_view(pieces: Seq<(u64, Vec<u8>)>) -> Seq<(u64, Seq<u8>)> {
    pieces.map_values(|p: (u64, Vec<u8>)| (p.0, p.1@))
}

/// Puts the pieces read from a file of `size` bytes together; `None` when
/// they do not hold exactly `size` bytes (a short read).
pub fn assemble_pieces(size: u64, pieces: &Vec<(u64, Vec<u8>)>) -> (r: Option<Vec<u8>>)
    requires
        size <= usize::MAX,
        forall|k: int| 0 <= k < pieces@.len() ==> #[trigger] pieces@[k].0 + pieces@[k].1@.len() <= size,
    ensures
        match r {
            Some(b) => spec_assemble(size as nat, pieces_view(pieces@)) == Some(b@),
            None => spec_assemble(size as nat, pieces_view(pieces@)) is None,
        },
{
    let ghost pv = pieces_view(pieces@);
    let n: usize = size as usize;
    let mut buf: Vec<u8> = Vec::new();
    while buf.len() < n
        invariant
            n == size,
            buf@.len() <= n,
            forall|x: int| 0 <= x < buf@.len() ==> buf@[x] == 0u8,
        decreases n - buf@.len(),
    {
        buf.push(0u8);
    }
    assert(buf@ =~= fill_pieces(size as nat, pv.take(0)));
    let mut got: u64 = 0;
    let mut over = false;
    let mut i: usize = 0;
    while i < pieces.len()
        invariant
            pv == pieces_view(pieces@),
            n == size,
            forall|k: int| 0 <= k < pieces@.len() ==> #[trigger] pieces@[k].0 + pieces@[k].1@.len() <= size,
            i <= pieces@.len(),
            buf@ == fill_pieces(size as nat, pv.take(i as int)),
            buf@.len() == size,
            over ==> pieces_len(pv.take(i as int)) > size,
            !over ==> got == pieces_len(pv.take(i as int)) && got <= size,
        decreases pieces@.len() - i,
    {
        let off = pieces[i].0;
        let data = &pieces[i].1;
        assert(pv.take(i + 1).drop_last() =~= pv.take(i as int));
        assert(pv.take(i + 1).last() == (off, data@));
        assert(pieces@[i as int].0 + pieces@[i as int].1@.len() <= size);
        let ghost before = buf@;
        let start: usize = off as usize;
        let mut j: usize = 0;
        while j < data.len()
            invariant
                n == size,
                buf@.len() == before.len(),
                before.len() == size,
                start == off,
                off + data@.len() <= size,
                j <= data@.len(),
                forall|x: int|
                    0 <= x < before.len() ==> #[trigger] buf@[x] == if start <= x < start + j {
                        data@[x - start]
                    } else {
                        before[x]
                    },
            decreases data@.len() - j,
        {
            buf.set(start + j, data[j]);
            j = j + 1;
        }
        assert(buf@ =~= write_at(before, off as int, data@));
        if !over {
            if data.len() as u64 > size - got {
                over = true;
            } else {
                got = got + data.len() as u64;
            }
        }
        i = i + 1;
    }
    assert(pv.take(pieces@.len() as int) =~= pv);
    if over || got != size {
        None
    } else {
        Some(buf)
    }
}

} // verus!
