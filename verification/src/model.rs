//! Mathematical model of the Spritz engine: a ghost image of the state and
//! one spec function per operation of the construction. The executable
//! methods in `engine` promise exact agreement with these functions.

use vstd::prelude::*;

verus! {

/// Ghost image of the engine: the table as a sequence of bytes plus the
/// six one-byte registers.
#[verifier::ext_equal]
pub ghost struct SpritzState {
    pub table: Seq<u8>,
    pub i: u8,
    pub j: u8,
    pub k: u8,
    pub z: u8,
    pub a: u8,
    pub w: u8,
}

/// The table's entries are pairwise distinct.
pub open spec fn distinct_entries(t: Seq<u8>) -> bool {
    forall|p: int, q: int| 0 <= p < 256 && 0 <= q < 256 && p != q ==> t[p] != t[q]
}

/// The byte value `v` occurs somewhere in the table.
pub open spec fn appears(t: Seq<u8>, v: u8) -> bool {
    exists|idx: int| 0 <= idx < 256 && t[idx] == v
}

/// Every byte value occurs somewhere in the table.
pub open spec fn covers_all_bytes(t: Seq<u8>) -> bool {
    forall|v: u8| #[trigger] appears(t, v)
}

/// The table is a permutation of the 256 byte values: full size, no value
/// twice, no value missing.
pub open spec fn is_permutation(t: Seq<u8>) -> bool {
    &&& t.len() == 256
    &&& distinct_entries(t)
    &&& covers_all_bytes(t)
}

/// The two cells exchanged, every other cell unchanged.
pub open spec fn swap_seq(t: Seq<u8>, x: int, y: int) -> Seq<u8> {
    t.update(x, t[y]).update(y, t[x])
}

/// Well-formed engine state: the table is a full-size permutation, the
/// absorption counter is at most half the table size, the stride is odd.
pub open spec fn state_wf(st: SpritzState) -> bool {
    &&& is_permutation(st.table)
    &&& st.a <= 128
    &&& st.w % 2 == 1
}

/// Freshly initialized engine: identity table, zero registers, stride one.
pub open spec fn init_state() -> SpritzState {
    SpritzState {
        table: Seq::new(256, |x: int| x as u8),
        i: 0,
        j: 0,
        k: 0,
        z: 0,
        a: 0,
        w: 1,
    }
}

/// One state-advance step: move `i` by the stride, rederive `j` and `k`
/// from the table, then swap the cells at `i` and `j`.
pub open spec fn update_state(st: SpritzState) -> SpritzState {
    let ni = st.i.wrapping_add(st.w);
    let mid = st.j.wrapping_add(st.table[ni as int]);
    let nj = st.k.wrapping_add(st.table[mid as int]);
    let nk = ni.wrapping_add(st.k).wrapping_add(st.table[nj as int]);
    SpritzState { table: swap_seq(st.table, ni as int, nj as int), i: ni, j: nj, k: nk, ..st }
}

/// `r` state-advance steps in order.
pub open spec fn update_steps(st: SpritzState, r: nat) -> SpritzState
    decreases r,
{
    if r == 0 {
        st
    } else {
        update_state(update_steps(st, (r - 1) as nat))
    }
}

/// Whip: `r` update steps, then the stride grows by two, staying odd.
pub open spec fn whip_state(st: SpritzState, r: nat) -> SpritzState {
    let stepped = update_steps(st, r);
    SpritzState { w: stepped.w.wrapping_add(2), ..stepped }
}

/// One compare-and-swap between the cells symmetric about the midpoint:
/// the smaller value moves to the lower index.
pub open spec fn crush_step(st: SpritzState, v: int) -> SpritzState {
    let mirror = 255 - v;
    if st.table[v] > st.table[mirror] {
        SpritzState { table: swap_seq(st.table, v, mirror), ..st }
    } else {
        st
    }
}

/// Compare-and-swap applied to the first `n` symmetric pairs in order.
pub open spec fn crush_upto(st: SpritzState, n: nat) -> SpritzState
    decreases n,
{
    if n == 0 {
        st
    } else {
        crush_step(crush_upto(st, (n - 1) as nat), n - 1)
    }
}

/// Crush: one compare-and-swap pass over all 128 symmetric pairs.
pub open spec fn crush_state(st: SpritzState) -> SpritzState {
    crush_upto(st, 128)
}

/// Shuffle: three whips of 512 steps interleaved with two crushes, then
/// the absorption counter resets.
pub open spec fn shuffle_state(st: SpritzState) -> SpritzState {
    let s1 = whip_state(st, 512);
    let s2 = crush_state(s1);
    let s3 = whip_state(s2, 512);
    let s4 = crush_state(s3);
    let s5 = whip_state(s4, 512);
    SpritzState { a: 0, ..s5 }
}

/// Absorb one nibble: shuffle first if the counter is saturated, then swap
/// cell `a` with the cell the nibble selects in the upper half.
pub open spec fn absorb_nibble_state(st: SpritzState, x: u8) -> SpritzState {
    let s0 = if st.a == 128 {
        shuffle_state(st)
    } else {
        st
    };
    SpritzState {
        table: swap_seq(s0.table, s0.a as int, x.wrapping_add(128) as int),
        a: s0.a.wrapping_add(1),
        ..s0
    }
}

/// Absorb one byte, low nibble first, high nibble second.
pub open spec fn absorb_byte_state(st: SpritzState, b: u8) -> SpritzState {
    absorb_nibble_state(absorb_nibble_state(st, b & 0xf), b >> 4)
}

/// Absorb a byte sequence in order.
pub open spec fn absorb_seq_state(st: SpritzState, input: Seq<u8>) -> SpritzState
    decreases input.len(),
{
    if input.len() == 0 {
        st
    } else {
        absorb_byte_state(absorb_seq_state(st, input.drop_last()), input.last())
    }
}

/// Absorb a stop marker: shuffle if saturated, then skip one counter
/// position without touching the table.
pub open spec fn absorb_stop_state(st: SpritzState) -> SpritzState {
    let s0 = if st.a == 128 {
        shuffle_state(st)
    } else {
        st
    };
    SpritzState { a: s0.a.wrapping_add(1), ..s0 }
}

/// Derive one output byte from the current registers; the byte is also
/// stored back into `z`.
pub open spec fn output_state(st: SpritzState) -> (SpritzState, u8) {
    let t0 = st.table[st.z.wrapping_add(st.k) as int];
    let t1 = st.table[st.i.wrapping_add(t0) as int];
    let nz = st.table[st.j.wrapping_add(t1) as int];
    (SpritzState { z: nz, ..st }, nz)
}

/// Drip: shuffle if absorbed data is pending, advance once, output once.
pub open spec fn drip_state(st: SpritzState) -> (SpritzState, u8) {
    let s0 = if st.a > 0 {
        shuffle_state(st)
    } else {
        st
    };
    output_state(update_state(s0))
}

/// `n` drips in order, together with the bytes they produce.
pub open spec fn drips_state(st: SpritzState, n: nat) -> (SpritzState, Seq<u8>)
    decreases n,
{
    if n == 0 {
        (st, Seq::<u8>::empty())
    } else {
        let prev = drips_state(st, (n - 1) as nat);
        let last = drip_state(prev.0);
        (last.0, prev.1.push(last.1))
    }
}

/// Squeeze: shuffle once if absorbed data is pending, then `r` drips.
pub open spec fn squeeze_state(st: SpritzState, r: nat) -> (SpritzState, Seq<u8>) {
    let s0 = if st.a > 0 {
        shuffle_state(st)
    } else {
        st
    };
    drips_state(s0, r)
}

/// A freshly keyed engine: initialize, then absorb the key.
pub open spec fn new_state(key: Seq<u8>) -> SpritzState {
    absorb_seq_state(init_state(), key)
}

/// The digest: a fresh engine absorbs the message, a stop marker and the
/// requested length byte, then squeezes that many bytes.
pub open spec fn hash_bytes(msg: Seq<u8>, out_len: u8) -> Seq<u8> {
    let s1 = absorb_seq_state(init_state(), msg);
    let s2 = absorb_stop_state(s1);
    let s3 = absorb_byte_state(s2, out_len);
    squeeze_state(s3, out_len as nat).1
}

/// Pointwise exclusive-or of a source with a keystream.
pub open spec fn xor_bytes(src: Seq<u8>, ks: Seq<u8>) -> Seq<u8> {
    Seq::new(src.len(), |q: int| src[q] ^ ks[q])
}

} // verus!
