//! The executable Spritz engine. Every method's contract states exact
//! agreement with the spec functions of `model`, and every public method
//! preserves well-formedness of the state.

use vstd::prelude::*;

use crate::model::{
    absorb_byte_state, absorb_nibble_state, absorb_seq_state, absorb_stop_state, crush_state,
    crush_step, crush_upto, drip_state, drips_state, hash_bytes, init_state, new_state,
    output_state, shuffle_state, squeeze_state, state_wf, update_state, update_steps, whip_state,
    xor_bytes, SpritzState,
};
use crate::laws::{
    lemma_absorb_nibble_wf, lemma_absorb_stop_wf, lemma_crush_upto_wf, lemma_drips_len,
    lemma_init_wf, lemma_shuffle_wf, lemma_update_wf, lemma_whip_wf,
};

verus! {

/// What a public operation can reject: the exclusive-or operation refuses
/// buffers of different lengths, and the digest refuses an output length
/// that does not fit the single length byte absorbed before squeezing.
#[derive(Clone, Copy, Debug, PartialEq, Eq, Structural)]
pub enum SpritzError {
    LengthMismatch,
    DigestTooLong,
}

/// The Spritz engine: a 256-cell byte table holding a permutation, and six
/// one-byte registers. One instance carries one keystream or one digest
/// computation; all arithmetic on registers and indices wraps modulo 256.
pub struct Spritz {
    table: Vec<u8>,
    i: u8,
    j: u8,
    k: u8,
    z: u8,
    a: u8,
    w: u8,
}

impl View for Spritz {
    type V = SpritzState;

    closed spec fn view(&self) -> SpritzState {
        SpritzState {
            table: self.table@,
            i: self.i,
            j: self.j,
            k: self.k,
            z: self.z,
            a: self.a,
            w: self.w,
        }
    }
}

impl Spritz {
    /// The engine's invariant: its ghost image is well formed.
    pub open spec fn wf(&self) -> bool {
        state_wf(self@)
    }

    /// Identity table, zero registers, stride one.
    fn initialize_state() -> (sp: Spritz)
        ensures
            sp@ == init_state(),
            sp.wf(),
    {
        let mut table: Vec<u8> = Vec::with_capacity(256);
        let mut x: usize = 0;
        while x < 256
            invariant
                x <= 256,
                table@.len() == x,
                forall|q: int| 0 <= q < x ==> table@[q] == q as u8,
            decreases 256 - x,
        {
            table.push(x as u8);
            x += 1;
        }
        let sp = Spritz { table, i: 0, j: 0, k: 0, z: 0, a: 0, w: 1 };
        proof {
            assert(sp@.table =~= init_state().table);
            assert(sp@ =~= init_state());
            lemma_init_wf();
        }
        sp
    }

    /// One state-advance step.
    fn update(&mut self)
        requires
            old(self).wf(),
        ensures
            final(self)@ == update_state(old(self)@),
            final(self).wf(),
    {
        self.i = self.i.wrapping_add(self.w);
        let mid = self.j.wrapping_add(self.table[self.i as usize]);
        self.j = self.k.wrapping_add(self.table[mid as usize]);
        self.k = self.i.wrapping_add(self.k).wrapping_add(self.table[self.j as usize]);
        let ti = self.table[self.i as usize];
        let tj = self.table[self.j as usize];
        self.table[self.i as usize] = tj;
        self.table[self.j as usize] = ti;
        proof {
            assert(self@ =~= update_state(old(self)@));
            lemma_update_wf(old(self)@);
        }
    }

    /// `r` update steps, then the stride grows by two.
    fn whip(&mut self, r: usize)
        requires
            old(self).wf(),
        ensures
            final(self)@ == whip_state(old(self)@, r as nat),
            final(self).wf(),
    {
        let ghost st0 = self@;
        let mut n: usize = 0;
        while n < r
            invariant
                n <= r,
                self@ == update_steps(st0, n as nat),
                self.wf(),
                state_wf(st0),
            decreases r - n,
        {
            self.update();
            n += 1;
        }
        self.w = self.w.wrapping_add(2);
        proof {
            assert(self@ =~= whip_state(st0, r as nat));
            lemma_whip_wf(st0, r as nat);
        }
    }

    /// One compare-and-swap pass over the 128 cell pairs symmetric about
    /// the table midpoint.
    fn crush(&mut self)
        requires
            old(self).wf(),
        ensures
            final(self)@ == crush_state(old(self)@),
            final(self).wf(),
    {
        let ghost st0 = self@;
        let mut v: usize = 0;
        while v < 128
            invariant
                v <= 128,
                self@ == crush_upto(st0, v as nat),
                self.wf(),
                state_wf(st0),
            decreases 128 - v,
        {
            let mirror: usize = 255 - v;
            if self.table[v] > self.table[mirror] {
                let low = self.table[v];
                let high = self.table[mirror];
                self.table[v] = high;
                self.table[mirror] = low;
            }
            proof {
                assert(self@ =~= crush_step(crush_upto(st0, v as nat), v as int));
                lemma_crush_upto_wf(st0, (v + 1) as nat);
            }
            v += 1;
        }
    }

    /// Three whips of 512 steps interleaved with two crushes, then the
    /// absorption counter resets.
    fn shuffle(&mut self)
        requires
            old(self).wf(),
        ensures
            final(self)@ == shuffle_state(old(self)@),
            final(self).wf(),
    {
        self.whip(512);
        self.crush();
        self.whip(512);
        self.crush();
        self.whip(512);
        self.a = 0;
        proof {
            assert(self@ =~= shuffle_state(old(self)@));
            lemma_shuffle_wf(old(self)@);
        }
    }

    /// Absorb one nibble: shuffle first if the counter is saturated, then
    /// swap cell `a` with the cell the nibble selects in the upper half.
    fn absorb_nibble(&mut self, x: u8)
        requires
            old(self).wf(),
        ensures
            final(self)@ == absorb_nibble_state(old(self)@, x),
            final(self).wf(),
    {
        if self.a == 128 {
            self.shuffle();
        }
        let pos = self.a as usize;
        let sel = x.wrapping_add(128) as usize;
        let at_pos = self.table[pos];
        let at_sel = self.table[sel];
        self.table[pos] = at_sel;
        self.table[sel] = at_pos;
        self.a = self.a.wrapping_add(1);
        proof {
            assert(self@ =~= absorb_nibble_state(old(self)@, x));
            lemma_absorb_nibble_wf(old(self)@, x);
        }
    }

    /// Absorb one byte, low nibble first, high nibble second.
    fn absorb_byte(&mut self, b: u8)
        requires
            old(self).wf(),
        ensures
            final(self)@ == absorb_byte_state(old(self)@, b),
            final(self).wf(),
    {
        self.absorb_nibble(b & 0xf);
        self.absorb_nibble(b >> 4);
    }

    /// Absorb a byte sequence in order.
    fn absorb(&mut self, input: &[u8])
        requires
            old(self).wf(),
        ensures
            final(self)@ == absorb_seq_state(old(self)@, input@),
            final(self).wf(),
    {
        let ghost st0 = self@;
        let mut n: usize = 0;
        while n < input.len()
            invariant
                n <= input@.len(),
                self@ == absorb_seq_state(st0, input@.take(n as int)),
                self.wf(),
                state_wf(st0),
            decreases input@.len() - n,
        {
            self.absorb_byte(input[n]);
            proof {
                assert(input@.take((n + 1) as int).drop_last() =~= input@.take(n as int));
                assert(input@.take((n + 1) as int).last() == input@[n as int]);
            }
            n += 1;
        }
        proof {
            assert(input@.take(input@.len() as int) =~= input@);
        }
    }

    /// Absorb a stop marker: the counter skips one position without the
    /// table being touched, separating two absorbed fields.
    fn absorb_stop(&mut self)
        requires
            old(self).wf(),
        ensures
            final(self)@ == absorb_stop_state(old(self)@),
            final(self).wf(),
    {
        if self.a == 128 {
            self.shuffle();
        }
        self.a = self.a.wrapping_add(1);
        proof {
            assert(self@ =~= absorb_stop_state(old(self)@));
            lemma_absorb_stop_wf(old(self)@);
        }
    }

    /// Derive one output byte from the current registers; the byte is also
    /// stored back into `z`.
    fn output(&mut self) -> (b: u8)
        requires
            old(self).wf(),
        ensures
            final(self)@ == output_state(old(self)@).0,
            b == output_state(old(self)@).1,
            final(self).wf(),
    {
        let t0 = self.table[self.z.wrapping_add(self.k) as usize];
        let t1 = self.table[self.i.wrapping_add(t0) as usize];
        self.z = self.table[self.j.wrapping_add(t1) as usize];
        proof {
            assert(self@ =~= output_state(old(self)@).0);
        }
        self.z
    }

    /// Produce one keystream byte, advancing the state irreversibly: any
    /// pending absorbed data is shuffled in first, then the state advances
    /// one step and one byte is derived.
    pub fn drip(&mut self) -> (b: u8)
        requires
            old(self).wf(),
        ensures
            final(self)@ == drip_state(old(self)@).0,
            b == drip_state(old(self)@).1,
            final(self).wf(),
    {
        if self.a > 0 {
            self.shuffle();
        }
        self.update();
        self.output()
    }

    /// Draw `r` keystream bytes in order.
    fn squeeze(&mut self, r: usize) -> (out: Vec<u8>)
        requires
            old(self).wf(),
        ensures
            final(self)@ == squeeze_state(old(self)@, r as nat).0,
            out@ == squeeze_state(old(self)@, r as nat).1,
            final(self).wf(),
    {
        if self.a > 0 {
            self.shuffle();
        }
        let ghost st0 = self@;
        let mut out: Vec<u8> = Vec::with_capacity(r);
        let mut n: usize = 0;
        while n < r
            invariant
                n <= r,
                self@ == drips_state(st0, n as nat).0,
                out@ == drips_state(st0, n as nat).1,
                self.wf(),
                state_wf(st0),
            decreases r - n,
        {
            let b = self.drip();
            out.push(b);
            n += 1;
        }
        out
    }

    /// Construct an engine from a key of any length, the empty key
    /// included: initialize, then absorb the key. Deterministic in the key.
    pub fn new(key: &[u8]) -> (sp: Spritz)
        ensures
            sp@ == new_state(key@),
            sp.wf(),
    {
        let mut sp = Spritz::initialize_state();
        sp.absorb(key);
        sp
    }

    /// Fill `dst` with `src` combined byte by byte with the keystream by
    /// exclusive-or. The buffers must have equal length: on a mismatch the
    /// call fails before any byte is processed, and neither `dst` nor the
    /// engine changes. The keystream continues across calls, so encrypting
    /// in several pieces equals encrypting in one.
    pub fn xor_key_stream(&mut self, dst: &mut Vec<u8>, src: &[u8]) -> (r: Result<
        (),
        SpritzError,
    >)
        requires
            old(self).wf(),
        ensures
            final(self).wf(),
            src@.len() == old(dst)@.len() ==> {
                &&& r == Ok::<(), SpritzError>(())
                &&& final(self)@ == drips_state(old(self)@, src@.len()).0
                &&& final(dst)@ == xor_bytes(src@, drips_state(old(self)@, src@.len()).1)
            },
            src@.len() != old(dst)@.len() ==> {
                &&& r == Err::<(), SpritzError>(SpritzError::LengthMismatch)
                &&& final(self)@ == old(self)@
                &&& final(dst)@ == old(dst)@
            },
    {
        if dst.len() != src.len() {
            return Err(SpritzError::LengthMismatch);
        }
        let ghost st0 = self@;
        let mut n: usize = 0;
        while n < src.len()
            invariant
                n <= src@.len(),
                dst@.len() == src@.len(),
                self@ == drips_state(st0, n as nat).0,
                forall|q: int|
                    0 <= q < n ==> dst@[q] == (src@[q] ^ drips_state(st0, n as nat).1[q]),
                self.wf(),
                state_wf(st0),
            decreases src@.len() - n,
        {
            proof {
                lemma_drips_len(st0, n as nat);
            }
            let b = self.drip();
            dst[n] = src[n] ^ b;
            n += 1;
        }
        proof {
            lemma_drips_len(st0, src@.len());
            assert(dst@ =~= xor_bytes(src@, drips_state(st0, src@.len()).1));
        }
        Ok(())
    }

    /// The digest of `msg` at a chosen output length: a fresh engine
    /// absorbs the message, a stop marker and the length byte, then
    /// squeezes that many bytes. A length over 255 does not fit the single
    /// absorbed length byte and is rejected before any absorption.
    pub fn hash(msg: &[u8], out_len: usize) -> (r: Result<Vec<u8>, SpritzError>)
        ensures
            out_len <= 255 ==> {
                &&& r is Ok
                &&& r->Ok_0@ == hash_bytes(msg@, out_len as u8)
            },
            out_len > 255 ==> r == Err::<Vec<u8>, SpritzError>(SpritzError::DigestTooLong),
    {
        if out_len > 255 {
            return Err(SpritzError::DigestTooLong);
        }
        let mut sp = Spritz::initialize_state();
        sp.absorb(msg);
        sp.absorb_stop();
        sp.absorb_byte(out_len as u8);
        Ok(sp.squeeze(out_len))
    }

    /// The 32-byte digest of `msg`, deterministic in the message alone.
    pub fn hash256(msg: &[u8]) -> (digest: Vec<u8>)
        ensures
            digest@ == hash_bytes(msg@, 32),
            digest@.len() == 32,
    {
        let mut sp = Spritz::initialize_state();
        sp.absorb(msg);
        sp.absorb_stop();
        sp.absorb_byte(32);
        let digest = sp.squeeze(32);
        proof {
            let s3 = absorb_byte_state(
                absorb_stop_state(absorb_seq_state(init_state(), msg@)),
                32,
            );
            let s4 = if s3.a > 0 {
                shuffle_state(s3)
            } else {
                s3
            };
            lemma_drips_len(s4, 32);
        }
        digest
    }

    /// A snapshot of the table, for callers that want to observe the
    /// permutation from outside.
    pub fn table(&self) -> (t: &[u8])
        ensures
            t@ == self@.table,
    {
        self.table.as_slice()
    }
}

} // verus!

