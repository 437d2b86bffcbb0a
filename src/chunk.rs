use vstd::arithmetic::div_mod::{lemma_div_plus_one, lemma_mod_add_multiples_vanish, lemma_small_mod};
use vstd::prelude::*;

verus! {

/// The default chunk size: one mebibyte.
pub const ONE_MB: usize = 1048576;

/// A numbered slice of a byte source, the unit of delivery.
pub struct Chunk {
    pub sequence_number: u64,
    pub payload: Vec<u8>,
}

/// The payloads that cutting `data` into pieces of `size` bytes yields, in
/// order: every piece holds `size` bytes but the last, which holds the rest.
pub open spec fn chunks_of(data: Seq<u8>, size: nat) -> Seq<Seq<u8>>
    decreases data.len(),
{
    if data.len() == 0 || size == 0 {
        Seq::empty()
    } else if data.len() <= size {
        seq![data]
    } else {
        seq![data.take(size as int)] + chunks_of(data.skip(size as int), size)
    }
}

/// The bytes of `pieces` laid end to end.
pub open spec fn concat(pieces: Seq<Seq<u8>>) -> Seq<u8>
    decreases pieces.len(),
{
    if pieces.len() == 0 {
        Seq::empty()
    } else {
        pieces[0] + concat(pieces.drop_first())
    }
}

/// Every piece holds exactly `size` bytes.
pub open spec fn all_full(pieces: Seq<Seq<u8>>, size: nat) -> bool {
    forall|i: int| 0 <= i < pieces.len() ==> #[trigger] pieces[i].len() == size
}

/// Every piece holds exactly `size` bytes but the last, which holds between
/// one and `size` bytes.
pub open spec fn well_cut(pieces: Seq<Seq<u8>>, size: nat) -> bool {
    &&& forall|i: int| 0 <= i < pieces.len() - 1 ==> #[trigger] pieces[i].len() == size
    &&& pieces.len() > 0 ==> 0 < pieces.last().len() <= size
}

/// The number of chunks a source of `len` bytes yields: `ceil(len / size)`.
pub open spec fn chunk_count(len: nat, size: nat) -> nat {
    ((len + size - 1) / (size as int)) as nat
}

/// The length of the last chunk of a non-empty source of `len` bytes.
pub open spec fn last_chunk_len(len: nat, size: nat) -> nat {
    if len % size == 0 {
        size
    } else {
        len % size
    }
}

/// Appending one piece at the end appends its bytes at the end.
pub proof fn lemma_concat_push(pieces: Seq<Seq<u8>>, piece: Seq<u8>)
    ensures
        concat(pieces.push(piece)) == concat(pieces) + piece,
    decreases pieces.len(),
{
    if pieces.len() == 0 {
        assert(pieces.push(piece).drop_first() =~= Seq::<Seq<u8>>::empty());
        assert(concat(pieces.push(piece).drop_first()) == Seq::<u8>::empty());
        assert(concat(pieces.push(piece)) =~= piece);
    } else {
        assert(pieces.push(piece).drop_first() =~= pieces.drop_first().push(piece));
        lemma_concat_push(pieces.drop_first(), piece);
        assert(concat(pieces.push(piece)) =~= concat(pieces) + piece);
    }
}

/// Cutting the bytes of well cut pieces gives the same pieces back.
pub proof fn lemma_chunks_of_concat(pieces: Seq<Seq<u8>>, size: nat)
    requires
        size > 0,
        well_cut(pieces, size),
    ensures
        chunks_of(concat(pieces), size) == pieces,
    decreases pieces.len(),
{
    if pieces.len() == 0 {
        assert(chunks_of(concat(pieces), size) =~= pieces);
    } else if pieces.len() == 1 {
        assert(pieces.drop_first() =~= Seq::<Seq<u8>>::empty());
        assert(concat(pieces.drop_first()) == Seq::<u8>::empty());
        assert(concat(pieces) =~= pieces[0]);
        assert(chunks_of(concat(pieces), size) =~= pieces);
    } else {
        let rest = pieces.drop_first();
        let data = concat(pieces);
        assert(pieces[0].len() == size);
        assert(well_cut(rest, size)) by {
            assert forall|i: int| 0 <= i < rest.len() - 1 implies #[trigger] rest[i].len()
                == size by {
                assert(rest[i] == pieces[i + 1]);
            }
        }
        assert(concat(rest) =~= rest[0] + concat(rest.drop_first()));
        assert(rest[0].len() > 0) by {
            if rest.len() > 1 {
                assert(rest[0] == pieces[1]);
            }
        }
        assert(data.take(size as int) =~= pieces[0]);
        assert(data.skip(size as int) =~= concat(rest));
        lemma_chunks_of_concat(rest, size);
        assert(chunks_of(data, size) =~= seq![pieces[0]] + rest);
        assert(seq![pieces[0]] + rest =~= pieces);
    }
}

/// What `chunks_of` yields is well cut and lays out the source exactly.
pub proof fn lemma_chunks_of_shape(data: Seq<u8>, size: nat)
    requires
        size > 0,
    ensures
        well_cut(chunks_of(data, size), size),
        concat(chunks_of(data, size)) == data,
    decreases data.len(),
{
    let c = chunks_of(data, size);
    if data.len() == 0 {
        assert(concat(c) =~= data);
    } else if data.len() <= size {
        assert(c.drop_first() =~= Seq::<Seq<u8>>::empty());
        assert(concat(c.drop_first()) == Seq::<u8>::empty());
        assert(concat(c) =~= data);
    } else {
        let rest = data.skip(size as int);
        lemma_chunks_of_shape(rest, size);
        let rc = chunks_of(rest, size);
        assert(c.drop_first() =~= rc);
        assert(concat(c) =~= data);
        assert forall|i: int| 0 <= i < c.len() - 1 implies #[trigger] c[i].len() == size by {
            if i > 0 {
                assert(c[i] == rc[i - 1]);
            }
        }
        assert(rest.len() > 0);
        assert(rc.len() > 0);
        assert(c.last() == rc.last());
    }
}

/// A source of `len` bytes yields `ceil(len / size)` chunks, none for an
/// empty source; the chunks lay the source out again in order, and the last
/// one holds `len % size` bytes, or `size` where `size` divides `len`.
pub proof fn lemma_chunking(data: Seq<u8>, size: nat)
    requires
        size > 0,
    ensures
        chunks_of(data, size).len() == chunk_count(data.len(), size),
        concat(chunks_of(data, size)) == data,
        data.len() > 0 ==> chunks_of(data, size).last().len() == last_chunk_len(
            data.len(),
            size,
        ),
    decreases data.len(),
{
    lemma_chunks_of_shape(data, size);
    let len = data.len();
    if len == 0 {
        assert((size - 1) as int / (size as int) == 0) by {
            lemma_small_mod((size - 1) as nat, size);
            vstd::arithmetic::div_mod::lemma_basic_div(size as int - 1, size as int);
        }
    } else if len <= size {
        assert((len + size - 1) / (size as int) == 1) by {
            lemma_div_plus_one(len - 1, size as int);
            vstd::arithmetic::div_mod::lemma_basic_div(len - 1, size as int);
        }
        if len == size {
            vstd::arithmetic::div_mod::lemma_mod_self_0(size as int);
        } else {
            lemma_small_mod(len, size);
        }
    } else {
        let rest = data.skip(size as int);
        lemma_chunking(rest, size);
        let c = chunks_of(data, size);
        let rc = chunks_of(rest, size);
        assert(c =~= seq![data.take(size as int)] + rc);
        assert(rest.len() == len - size);
        lemma_div_plus_one(rest.len() + size - 1, size as int);
        lemma_mod_add_multiples_vanish(rest.len() as int, size as int);
        assert(c.last() == rc.last());
    }
}

} // verus!
