//! Proofs about the model: the table stays a permutation under every
//! operation (well-formedness is preserved from construction on), keystreams
//! are deterministic in the key, drawing bytes streams (any split of one
//! draw into several yields the same bytes), and digests are deterministic
//! in the message.

use vstd::prelude::*;

use crate::model::{
    absorb_byte_state, absorb_nibble_state, absorb_seq_state, absorb_stop_state, appears,
    crush_state, crush_step, crush_upto, drip_state, drips_state, hash_bytes, init_state,
    is_permutation, new_state, output_state, shuffle_state, squeeze_state, state_wf, swap_seq,
    update_state, update_steps, whip_state, SpritzState,
};

verus! {

/// Swapping two cells of a permutation leaves a permutation.
pub proof fn lemma_swap_perm(t: Seq<u8>, x: int, y: int)
    requires
        is_permutation(t),
        0 <= x < 256,
        0 <= y < 256,
    ensures
        is_permutation(swap_seq(t, x, y)),
{
    let t2 = swap_seq(t, x, y);
    assert forall|p: int, q: int|
        0 <= p < 256 && 0 <= q < 256 && p != q implies t2[p] != t2[q] by {
        assert(t2[p] == if p == y { t[x] } else if p == x { t[y] } else { t[p] });
        assert(t2[q] == if q == y { t[x] } else if q == x { t[y] } else { t[q] });
    }
    assert forall|v: u8| #[trigger] appears(t2, v) by {
        assert(appears(t, v));
        let idx = choose|idx: int| 0 <= idx < 256 && t[idx] == v;
        if idx == x {
            assert(t2[y] == v);
        } else if idx == y {
            assert(t2[x] == v);
        } else {
            assert(t2[idx] == v);
        }
    }
}

/// The freshly initialized state is well formed: the identity table is a
/// permutation, the counter is zero, the stride is one.
pub proof fn lemma_init_wf()
    ensures
        state_wf(init_state()),
{
    let t = init_state().table;
    assert forall|v: u8| #[trigger] appears(t, v) by {
        assert(t[v as int] == v);
    }
}

/// One update step preserves well-formedness.
pub proof fn lemma_update_wf(st: SpritzState)
    requires
        state_wf(st),
    ensures
        state_wf(update_state(st)),
{
    let ni = st.i.wrapping_add(st.w);
    let mid = st.j.wrapping_add(st.table[ni as int]);
    let nj = st.k.wrapping_add(st.table[mid as int]);
    lemma_swap_perm(st.table, ni as int, nj as int);
}

/// Any number of update steps preserves well-formedness.
pub proof fn lemma_update_steps_wf(st: SpritzState, r: nat)
    requires
        state_wf(st),
    ensures
        state_wf(update_steps(st, r)),
    decreases r,
{
    if r > 0 {
        lemma_update_steps_wf(st, (r - 1) as nat);
        lemma_update_wf(update_steps(st, (r - 1) as nat));
    }
}

/// A whip preserves well-formedness; in particular the stride stays odd.
pub proof fn lemma_whip_wf(st: SpritzState, r: nat)
    requires
        state_wf(st),
    ensures
        state_wf(whip_state(st, r)),
{
    lemma_update_steps_wf(st, r);
    let wm = update_steps(st, r).w;
    assert(wm % 2 == 1 ==> wm.wrapping_add(2) % 2 == 1) by (bit_vector);
}

/// One compare-and-swap of a crush pass preserves well-formedness.
pub proof fn lemma_crush_step_wf(st: SpritzState, v: int)
    requires
        state_wf(st),
        0 <= v < 128,
    ensures
        state_wf(crush_step(st, v)),
{
    if st.table[v] > st.table[255 - v] {
        lemma_swap_perm(st.table, v, 255 - v);
    }
}

/// A prefix of a crush pass preserves well-formedness.
pub proof fn lemma_crush_upto_wf(st: SpritzState, n: nat)
    requires
        state_wf(st),
        n <= 128,
    ensures
        state_wf(crush_upto(st, n)),
    decreases n,
{
    if n > 0 {
        lemma_crush_upto_wf(st, (n - 1) as nat);
        lemma_crush_step_wf(crush_upto(st, (n - 1) as nat), n - 1);
    }
}

/// A full crush pass preserves well-formedness.
pub proof fn lemma_crush_wf(st: SpritzState)
    requires
        state_wf(st),
    ensures
        state_wf(crush_state(st)),
{
    lemma_crush_upto_wf(st, 128);
}

/// A shuffle preserves well-formedness and resets the counter.
pub proof fn lemma_shuffle_wf(st: SpritzState)
    requires
        state_wf(st),
    ensures
        state_wf(shuffle_state(st)),
        shuffle_state(st).a == 0,
{
    lemma_whip_wf(st, 512);
    lemma_crush_wf(whip_state(st, 512));
    let s2 = crush_state(whip_state(st, 512));
    lemma_whip_wf(s2, 512);
    lemma_crush_wf(whip_state(s2, 512));
    let s4 = crush_state(whip_state(s2, 512));
    lemma_whip_wf(s4, 512);
}

/// Absorbing one nibble preserves well-formedness.
pub proof fn lemma_absorb_nibble_wf(st: SpritzState, x: u8)
    requires
        state_wf(st),
    ensures
        state_wf(absorb_nibble_state(st, x)),
{
    let s0 = if st.a == 128 {
        shuffle_state(st)
    } else {
        st
    };
    if st.a == 128 {
        lemma_shuffle_wf(st);
    }
    lemma_swap_perm(s0.table, s0.a as int, x.wrapping_add(128) as int);
}

/// Absorbing one byte preserves well-formedness.
pub proof fn lemma_absorb_byte_wf(st: SpritzState, b: u8)
    requires
        state_wf(st),
    ensures
        state_wf(absorb_byte_state(st, b)),
{
    lemma_absorb_nibble_wf(st, b & 0xf);
    lemma_absorb_nibble_wf(absorb_nibble_state(st, b & 0xf), b >> 4);
}

/// Absorbing any byte sequence preserves well-formedness.
pub proof fn lemma_absorb_seq_wf(st: SpritzState, input: Seq<u8>)
    requires
        state_wf(st),
    ensures
        state_wf(absorb_seq_state(st, input)),
    decreases input.len(),
{
    if input.len() > 0 {
        lemma_absorb_seq_wf(st, input.drop_last());
        lemma_absorb_byte_wf(absorb_seq_state(st, input.drop_last()), input.last());
    }
}

/// Absorbing a stop marker preserves well-formedness.
pub proof fn lemma_absorb_stop_wf(st: SpritzState)
    requires
        state_wf(st),
    ensures
        state_wf(absorb_stop_state(st)),
{
    if st.a == 128 {
        lemma_shuffle_wf(st);
    }
}

/// Producing one output byte preserves well-formedness.
pub proof fn lemma_output_wf(st: SpritzState)
    requires
        state_wf(st),
    ensures
        state_wf(output_state(st).0),
{
}

/// One drip preserves well-formedness.
pub proof fn lemma_drip_wf(st: SpritzState)
    requires
        state_wf(st),
    ensures
        state_wf(drip_state(st).0),
{
    let s0 = if st.a > 0 {
        shuffle_state(st)
    } else {
        st
    };
    if st.a > 0 {
        lemma_shuffle_wf(st);
    }
    lemma_update_wf(s0);
    lemma_output_wf(update_state(s0));
}

/// Any number of drips preserves well-formedness.
pub proof fn lemma_drips_wf(st: SpritzState, n: nat)
    requires
        state_wf(st),
    ensures
        state_wf(drips_state(st, n).0),
    decreases n,
{
    if n > 0 {
        lemma_drips_wf(st, (n - 1) as nat);
        lemma_drip_wf(drips_state(st, (n - 1) as nat).0);
    }
}

/// A squeeze preserves well-formedness.
pub proof fn lemma_squeeze_wf(st: SpritzState, r: nat)
    requires
        state_wf(st),
    ensures
        state_wf(squeeze_state(st, r).0),
{
    let s0 = if st.a > 0 {
        shuffle_state(st)
    } else {
        st
    };
    if st.a > 0 {
        lemma_shuffle_wf(st);
    }
    lemma_drips_wf(s0, r);
}

/// `n` drips produce exactly `n` bytes.
pub proof fn lemma_drips_len(st: SpritzState, n: nat)
    ensures
        drips_state(st, n).1.len() == n,
    decreases n,
{
    if n > 0 {
        lemma_drips_len(st, (n - 1) as nat);
    }
}

/// A freshly keyed engine is well formed, whatever the key: the table is a
/// permutation from construction on.
pub proof fn lemma_new_wf(key: Seq<u8>)
    ensures
        state_wf(new_state(key)),
{
    lemma_init_wf();
    lemma_absorb_seq_wf(init_state(), key);
}

/// Streaming equivalence: from any state, drawing `m + n` bytes in one run
/// yields exactly the bytes of drawing `m` and then `n` from the state the
/// first draw leaves behind — drawing has no batching side effects, so any
/// split of one draw into several produces the same byte sequence.
pub proof fn lemma_streaming_equivalence(st: SpritzState, m: nat, n: nat)
    ensures
        drips_state(st, m + n).0 == drips_state(drips_state(st, m).0, n).0,
        drips_state(st, m + n).1 == drips_state(st, m).1 + drips_state(drips_state(st, m).0, n).1,
    decreases n,
{
    let mid = drips_state(st, m).0;
    if n == 0 {
        assert(drips_state(st, m + n).1 =~= drips_state(st, m).1 + drips_state(mid, 0).1);
    } else {
        lemma_streaming_equivalence(st, m, (n - 1) as nat);
        assert(drips_state(st, m + n).1 =~= drips_state(st, m).1 + drips_state(mid, n).1);
    }
}

/// Determinism of the keystream: engines built from equal keys yield the
/// same bytes on every draw of `n` — the keystream is a function of the key
/// alone.
pub proof fn lemma_keystream_deterministic(key1: Seq<u8>, key2: Seq<u8>, n: nat)
    requires
        key1 == key2,
    ensures
        new_state(key1) == new_state(key2),
        drips_state(new_state(key1), n).1 == drips_state(new_state(key2), n).1,
{
}

/// Determinism of the digest: equal messages hashed at the same output
/// length yield identical digests — the digest is a function of the message
/// and the requested length alone.
pub proof fn lemma_digest_deterministic(msg1: Seq<u8>, msg2: Seq<u8>, out_len: u8)
    requires
        msg1 == msg2,
    ensures
        hash_bytes(msg1, out_len) == hash_bytes(msg2, out_len),
{
}

} // verus!
