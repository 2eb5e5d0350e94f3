//! Properties of signatures and deltas, proved over the models that the
//! engines' contracts use.
use crate::delta::{
    delta_of, drop_two, second, signature_of, TAG_DIFFERENT_HASH, TAG_INSERTED_CHUNK,
    TAG_REMOVED_CHUNK, TAG_SAME_HASH,
};
use crate::hashing::{digest_of, sha256_of, HASH_SIZE};
use crate::stream::{chunks_of, rewound};
use vstd::arithmetic::div_mod::{lemma_mod_sub_multiples_vanish, lemma_small_mod};
use vstd::prelude::*;

verus! {

/// The digest of each of `chunks`, in order.
pub open spec fn digests_of(chunks: Seq<Seq<u8>>) -> Seq<Seq<u8>> {
    chunks.map_values(|c: Seq<u8>| digest_of(c))
}

/// `k` records that each keep the old file's chunk.
pub open spec fn same_records(k: nat) -> Seq<u8> {
    Seq::new(k, |i: int| TAG_SAME_HASH)
}

/// A record of literal bytes for each of `chunks`, in order.
pub open spec fn literal_records(chunks: Seq<Seq<u8>>) -> Seq<u8>
    decreases chunks.len(),
{
    if chunks.len() == 0 {
        Seq::<u8>::empty()
    } else {
        seq![TAG_DIFFERENT_HASH] + chunks[0] + literal_records(chunks.drop_first())
    }
}

/// `chunks`, concatenated.
pub open spec fn concat(chunks: Seq<Seq<u8>>) -> Seq<u8>
    decreases chunks.len(),
{
    if chunks.len() == 0 {
        Seq::<u8>::empty()
    } else {
        chunks[0] + concat(chunks.drop_first())
    }
}

/// Every digest is `HASH_SIZE` bytes long.
pub proof fn lemma_digest_len(chunk: Seq<u8>)
    ensures
        digest_of(chunk).len() == HASH_SIZE,
{
    broadcast use vstd::array::array_len_matches_n;

    let h = sha256_of(chunk);
    assert(h@.len() == 32);
}

/// A signature read back in chunks of the digest size gives one digest per
/// chunk of the file it was made from.
pub proof fn lemma_signature_chunks(chunks: Seq<Seq<u8>>)
    ensures
        chunks_of(signature_of(chunks), HASH_SIZE as nat) == digests_of(chunks),
    decreases chunks.len(),
{
    if chunks.len() == 0 {
        assert(digests_of(chunks) =~= Seq::<Seq<u8>>::empty());
    } else {
        let d = digest_of(chunks[0]);
        let rest = signature_of(chunks.drop_first());
        lemma_digest_len(chunks[0]);
        lemma_signature_chunks(chunks.drop_first());
        assert((d + rest).take(32) =~= d);
        assert((d + rest).skip(32) =~= rest);
        if rest.len() == 0 {
            assert(d + rest =~= d);
            if chunks.drop_first().len() > 0 {
                lemma_digest_len(chunks.drop_first()[0]);
                lemma_signature_nonempty(chunks.drop_first());
            }
            assert(digests_of(chunks) =~= seq![d]);
        } else {
            assert(digests_of(chunks) =~= seq![d] + digests_of(chunks.drop_first()));
        }
    }
}

/// The signature of at least one chunk is not empty.
proof fn lemma_signature_nonempty(chunks: Seq<Seq<u8>>)
    requires
        chunks.len() > 0,
    ensures
        signature_of(chunks).len() >= HASH_SIZE,
{
    lemma_digest_len(chunks[0]);
}

/// Chunks compared with their own digests all match.
pub proof fn lemma_delta_against_own_digests(chunks: Seq<Seq<u8>>)
    ensures
        delta_of(chunks, digests_of(chunks)) == same_records(chunks.len()),
    decreases chunks.len(),
{
    if chunks.len() > 0 {
        lemma_delta_against_own_digests(chunks.drop_first());
        assert(digests_of(chunks).drop_first() =~= digests_of(chunks.drop_first()));
        assert(same_records(chunks.len()) =~= seq![TAG_SAME_HASH] + same_records(
            chunks.drop_first().len(),
        ));
    } else {
        assert(same_records(0) =~= Seq::<u8>::empty());
    }
}

/// The delta of a file against its own signature keeps every chunk: one
/// record that keeps the old chunk for each chunk of the file, and nothing else.
pub proof fn lemma_round_trip(data: Seq<u8>, chunk_size: nat)
    ensures
        delta_of(
            chunks_of(data, chunk_size),
            chunks_of(signature_of(chunks_of(data, chunk_size)), HASH_SIZE as nat),
        ) == same_records(chunks_of(data, chunk_size).len()),
{
    lemma_signature_chunks(chunks_of(data, chunk_size));
    lemma_delta_against_own_digests(chunks_of(data, chunk_size));
}

/// The signature of a file is a function of its bytes and the chunk size: two
/// runs on the same file give the same bytes, a digest for each chunk.
pub proof fn lemma_signature_deterministic(a: Seq<u8>, b: Seq<u8>, chunk_size: nat)
    requires
        a == b,
    ensures
        signature_of(chunks_of(a, chunk_size)) == signature_of(chunks_of(b, chunk_size)),
        signature_of(chunks_of(a, chunk_size)).len() == HASH_SIZE * chunks_of(
            a,
            chunk_size,
        ).len(),
{
    lemma_signature_len(chunks_of(a, chunk_size));
}

/// A signature holds one digest per chunk.
proof fn lemma_signature_len(chunks: Seq<Seq<u8>>)
    ensures
        signature_of(chunks).len() == HASH_SIZE * chunks.len(),
    decreases chunks.len(),
{
    if chunks.len() > 0 {
        lemma_digest_len(chunks[0]);
        lemma_signature_len(chunks.drop_first());
        assert(HASH_SIZE * chunks.len() == HASH_SIZE + HASH_SIZE * (chunks.len() - 1))
            by (nonlinear_arith);
    }
}

/// Once no digest is left, every remaining chunk goes out as literal bytes.
pub proof fn lemma_exhausted_signature(new: Seq<Seq<u8>>)
    ensures
        delta_of(new, Seq::<Seq<u8>>::empty()) == literal_records(new),
    decreases new.len(),
{
    if new.len() > 0 {
        lemma_exhausted_signature(new.drop_first());
    }
}

/// A new file that extends the old one by whole chunks: a record that keeps
/// the old chunk for each old chunk, then literal bytes for each added chunk.
pub proof fn lemma_tail_growth(old_chunks: Seq<Seq<u8>>, added: Seq<Seq<u8>>)
    ensures
        delta_of(old_chunks + added, digests_of(old_chunks)) == same_records(old_chunks.len())
            + literal_records(added),
    decreases old_chunks.len(),
{
    if old_chunks.len() == 0 {
        assert(old_chunks + added =~= added);
        assert(digests_of(old_chunks) =~= Seq::<Seq<u8>>::empty());
        lemma_exhausted_signature(added);
        assert(same_records(0) + literal_records(added) =~= literal_records(added));
    } else {
        let rest = old_chunks.drop_first();
        lemma_tail_growth(rest, added);
        assert((old_chunks + added).drop_first() =~= rest + added);
        assert(digests_of(old_chunks).drop_first() =~= digests_of(rest));
        assert(same_records(old_chunks.len()) =~= seq![TAG_SAME_HASH] + same_records(
            rest.len(),
        ));
        assert(same_records(old_chunks.len()) + literal_records(added) =~= seq![TAG_SAME_HASH]
            + (same_records(rest.len()) + literal_records(added)));
    }
}

/// An old file of two equal chunks `c, c` and a new file `c, x, c`, where `x`
/// has another digest: the delta keeps `c`, inserts `x`, and keeps `c`.
pub proof fn lemma_insertion_detected(c: Seq<u8>, x: Seq<u8>)
    requires
        digest_of(x) != digest_of(c),
    ensures
        delta_of(seq![c, x, c], digests_of(seq![c, c])) == seq![
            TAG_SAME_HASH,
            TAG_INSERTED_CHUNK,
        ] + x + seq![TAG_SAME_HASH],
{
    let new = seq![c, x, c];
    let sig = digests_of(seq![c, c]);
    assert(new.drop_first() =~= seq![x, c]);
    assert(sig.drop_first() =~= seq![digest_of(c)]);
    assert(second(seq![x, c]) == c);
    assert(drop_two(seq![x, c]) =~= Seq::<Seq<u8>>::empty());
    assert(seq![digest_of(c)].drop_first() =~= Seq::<Seq<u8>>::empty());
    assert(seq![digest_of(c)][0] == digest_of(c));
    assert(delta_of(Seq::<Seq<u8>>::empty(), Seq::<Seq<u8>>::empty()) == Seq::<u8>::empty());
    assert(delta_of(seq![x, c], seq![digest_of(c)]) =~= seq![TAG_INSERTED_CHUNK] + x + seq![
        TAG_SAME_HASH,
    ]);
    assert(delta_of(new, sig) =~= seq![TAG_SAME_HASH, TAG_INSERTED_CHUNK] + x + seq![
        TAG_SAME_HASH,
    ]);
}

/// An old file `c, x, c` and a new file `c, c`, where `x` has a digest other
/// than that of `c` and of the empty chunk: the delta keeps `c`, removes `x`,
/// and keeps `c`.
pub proof fn lemma_removal_detected(c: Seq<u8>, x: Seq<u8>)
    requires
        digest_of(x) != digest_of(c),
        digest_of(x) != digest_of(Seq::<u8>::empty()),
    ensures
        delta_of(seq![c, c], digests_of(seq![c, x, c])) == seq![
            TAG_SAME_HASH,
            TAG_REMOVED_CHUNK,
            TAG_SAME_HASH,
        ],
{
    let new = seq![c, c];
    let sig = digests_of(seq![c, x, c]);
    assert(new.drop_first() =~= seq![c]);
    let sig1 = seq![digest_of(x), digest_of(c)];
    assert(sig.drop_first() =~= sig1);
    assert(second(seq![c]) =~= Seq::<u8>::empty());
    assert(drop_two(sig1) =~= Seq::<Seq<u8>>::empty());
    assert(sig1[0] == digest_of(x));
    assert(sig1[1] == digest_of(c));
    assert(second(sig1) == digest_of(c));
    assert(delta_of(Seq::<Seq<u8>>::empty(), Seq::<Seq<u8>>::empty()) == Seq::<u8>::empty());
    assert(seq![c].drop_first() =~= Seq::<Seq<u8>>::empty());
    assert(delta_of(seq![c], sig1) =~= seq![TAG_REMOVED_CHUNK, TAG_SAME_HASH]);
    assert(delta_of(new, sig) =~= seq![TAG_SAME_HASH, TAG_REMOVED_CHUNK, TAG_SAME_HASH]);
}

/// Framing a file into chunks: every chunk but the last has the chunk size,
/// the last one has the remainder of the length by the chunk size where that
/// is not zero, and the chunks put together give the file back.
pub proof fn lemma_chunk_framing(data: Seq<u8>, chunk_size: nat)
    requires
        chunk_size > 0,
        data.len() > 0,
    ensures
        chunks_of(data, chunk_size).len() > 0,
        forall|i: int|
            0 <= i < chunks_of(data, chunk_size).len() - 1 ==> #[trigger] chunks_of(
                data,
                chunk_size,
            )[i].len() == chunk_size,
        data.len() % chunk_size != 0 ==> chunks_of(data, chunk_size).last().len() == data.len()
            % chunk_size,
        data.len() % chunk_size == 0 ==> chunks_of(data, chunk_size).last().len() == chunk_size,
        concat(chunks_of(data, chunk_size)) == data,
    decreases data.len(),
{
    let cs = chunks_of(data, chunk_size);
    if data.len() <= chunk_size {
        assert(concat(cs.drop_first()) == Seq::<u8>::empty());
        assert(data + Seq::<u8>::empty() =~= data);
        if data.len() < chunk_size {
            lemma_small_mod(data.len(), chunk_size);
        } else {
            vstd::arithmetic::div_mod::lemma_mod_self_0(chunk_size as int);
        }
    } else {
        let rest = data.skip(chunk_size as int);
        lemma_chunk_framing(rest, chunk_size);
        let rs = chunks_of(rest, chunk_size);
        assert(cs.drop_first() =~= rs);
        assert(cs.last() == rs.last());
        lemma_mod_sub_multiples_vanish(data.len() as int, chunk_size as int);
        assert(rest.len() == data.len() - chunk_size);
        assert forall|i: int| 0 <= i < cs.len() - 1 implies #[trigger] cs[i].len()
            == chunk_size by {
            if i > 0 {
                assert(cs[i] == rs[i - 1]);
            }
        }
        assert(data.take(chunk_size as int) + rest =~= data);
    }
}

/// Stepping back over a chunk that was read makes it the next chunk to be
/// read, with the chunks after it as they were before it was read.
pub proof fn lemma_rewind_then_read(last: Seq<u8>, upcoming: Seq<Seq<u8>>)
    requires
        last.len() > 0,
    ensures
        rewound(last, upcoming).len() > 0,
        rewound(last, upcoming)[0] == last,
        rewound(last, upcoming).drop_first() == upcoming,
{
    assert(rewound(last, upcoming).drop_first() =~= upcoming);
}

} // verus!
