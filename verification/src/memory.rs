//! Latency-modeled tightly-coupled memories. The instruction memory is a
//! fixed-size word store with a configured per-access latency: a read is
//! non-blocking and must be polled once per cycle until its countdown runs
//! out, at which point the indexed word is returned. Out-of-range addresses
//! alias into the store by wrapping on its capacity.

use vstd::prelude::*;
use crate::io::Future;
use crate::io::Poll;
use crate::instruction::RawInstruction;

verus! {

/// Number of 32-bit words in the instruction memory.
pub const ITCM_WORDS: usize = 2048;

/// Number of 32-bit words in the data memory.
pub const DTCM_WORDS: usize = 8192;

/// ITCM (Instruction Tightly-Coupled Memory): a fixed-size word store with a
/// simulated access latency, preloaded with the program at construction.
pub struct Itcm {
    data: Vec<RawInstruction>,
    latency: u8,
}

/// The word the demonstration program holds at word index `i`: a chain of
/// dependent additions with one store/load pair, ending in a canonical no-op.
pub open spec fn spec_demo_word(i: int) -> u32 {
    if i == 0 {
        0x002082B3
    } else if i == 1 {
        0x00328333
    } else if i == 2 {
        0x004303B3
    } else if i == 3 {
        0x00702023
    } else if i == 4 {
        0x00002403
    } else if i == 5 {
        0x005404B3
    } else if i == 6 {
        0x00948533
    } else if i == 7 {
        0x00A505B3
    } else if i == 8 {
        0x00B58633
    } else if i == 9 {
        0x00C606B3
    } else if i == 10 {
        0x00D68733
    } else if i == 11 {
        0x00E707B3
    } else if i == 12 {
        0x00F70823
    } else if i == 13 {
        0x00872883
    } else if i == 14 {
        0x011888B3
    } else if i == 15 {
        0x00000013
    } else {
        0
    }
}

impl View for Itcm {
    type V = Seq<RawInstruction>;

    /// The stored words, by word index.
    closed spec fn view(&self) -> Seq<RawInstruction> {
        self.data@
    }
}

impl Itcm {
    /// The store always holds exactly `ITCM_WORDS` words.
    #[verifier::type_invariant]
    spec fn type_inv(self) -> bool {
        self.data@.len() == ITCM_WORDS
    }

    /// The configured access latency, in cycles.
    pub closed spec fn spec_latency(self) -> u8 {
        self.latency
    }

    /// Create an ITCM with the given per-access latency and contents: the
    /// supplied words in order (any beyond the store size are dropped),
    /// padded with zero words.
    pub fn from_words(words: &Vec<u32>, latency: u8) -> (r: Itcm)
        ensures
            r@.len() == ITCM_WORDS,
            forall|i: int|
                0 <= i < ITCM_WORDS ==> r@[i].data == (if i < words@.len() {
                    words@[i]
                } else {
                    0u32
                }),
            r.spec_latency() == latency,
    {
        let mut data: Vec<RawInstruction> = Vec::new();
        let mut i: usize = 0;
        while i < ITCM_WORDS
            invariant
                i <= ITCM_WORDS,
                data@.len() == i,
                forall|j: int|
                    0 <= j < i ==> data@[j].data == (if j < words@.len() {
                        words@[j]
                    } else {
                        0u32
                    }),
            decreases ITCM_WORDS - i,
        {
            if i < words.len() {
                data.push(RawInstruction { data: words[i] });
            } else {
                data.push(RawInstruction { data: 0 });
            }
            i = i + 1;
        }
        Itcm { data, latency }
    }

    /// Create an ITCM with the given latency, preloaded with the
    /// demonstration program.
    pub fn new(latency: u8) -> (r: Itcm)
        ensures
            r@.len() == ITCM_WORDS,
            forall|i: int| 0 <= i < ITCM_WORDS ==> r@[i].data == spec_demo_word(i),
            r.spec_latency() == latency,
    {
        let words: Vec<u32> = vec![
            0x002082B3,// add x5, x1, x2
            0x00328333,// add x6, x5, x3
            0x004303B3,// add x7, x6, x4
            0x00702023,// sw x7, 0(x0)
            0x00002403,// lw x8, 0(x0)
            0x005404B3,// add x9, x8, x5
            0x00948533,// add x10, x9, x9
            0x00A505B3,// add x11, x10, x10
            0x00B58633,// add x12, x11, x11
            0x00C606B3,// add x13, x12, x12
            0x00D68733,// add x14, x13, x13
            0x00E707B3,// add x15, x14, x14
            0x00F70823,// sw x15, 8(x14)
            0x00872883,// lw x17, 8(x14)
            0x011888B3,// add x17, x17, x17
            0x00000013,// nop
        ];
        let r: Itcm = Itcm::from_words(&words, latency);
        proof {
            assert forall|i: int| 0 <= i < ITCM_WORDS implies r@[i].data == spec_demo_word(
                i,
            ) by {
                if i < words@.len() {
                    assert(r@[i].data == words@[i]);
                }
            }
        }
        r
    }

    /// Issue a read request against the given word-aligned byte address.
    /// Non-blocking: the backing store is not consulted until the request's
    /// countdown has been polled down to zero. A latency of N means the
    /// request reports ready on exactly the Nth poll.
    pub fn read(&self, addr: u32) -> (r: ItcmRead)
        requires
            addr % 4 == 0,
        ensures
            r.addr == addr,
            r.remaining_cycles == (if self.spec_latency() > 0 {
                (self.spec_latency() - 1) as u8
            } else {
                0u8
            }),
    {
        ItcmRead {
            addr,
            remaining_cycles: if self.latency > 0 {
                self.latency - 1
            } else {
                0
            },
        }
    }

    /// The word a byte address selects: its word index, wrapped on the store
    /// capacity so out-of-range addresses alias rather than fail.
    pub open spec fn spec_word_at(self, addr: u32) -> RawInstruction
        recommends
            self@.len() == ITCM_WORDS,
    {
        self@[(addr / 4) as int % (ITCM_WORDS as int)]
    }

    /// Indexed lookup of the word a byte address selects.
    pub(crate) fn _read(&self, addr: u32) -> (r: RawInstruction)
        ensures
            r == self.spec_word_at(addr),
    {
        proof {
            use_type_invariant(self);
        }
        let index: usize = ((addr / 4) as usize) % self.data.len();
        self.data[index]
    }
}

/// An in-flight ITCM read request: the target address and the remaining
/// latency countdown.
#[derive(Copy, Clone, PartialEq, Eq, Structural, Debug)]
pub struct ItcmRead {
    pub addr: u32,
    pub remaining_cycles: u8,
}

/// The request state after one poll: a positive countdown is decremented;
/// a spent one stays put.
pub open spec fn spec_poll_state(r: ItcmRead) -> ItcmRead {
    if r.remaining_cycles > 0 {
        ItcmRead { addr: r.addr, remaining_cycles: (r.remaining_cycles - 1) as u8 }
    } else {
        r
    }
}

/// What one poll reports: pending while the countdown is positive, else
/// ready with the word the target address selects.
pub open spec fn spec_poll_output(r: ItcmRead, itcm: Itcm) -> Poll<RawInstruction> {
    if r.remaining_cycles > 0 {
        Poll::Pending
    } else {
        Poll::Ready(itcm.spec_word_at(r.addr))
    }
}

/// The request state after `n` polls.
pub open spec fn spec_poll_n(r: ItcmRead, n: nat) -> ItcmRead
    decreases n,
{
    if n == 0 {
        r
    } else {
        spec_poll_state(spec_poll_n(r, (n - 1) as nat))
    }
}

/// Polling keeps the target address and runs the countdown down by one per
/// poll until it reaches zero.
pub proof fn lemma_poll_n_state(r: ItcmRead, n: nat)
    ensures
        spec_poll_n(r, n).addr == r.addr,
        spec_poll_n(r, n).remaining_cycles == (if n <= r.remaining_cycles {
            r.remaining_cycles - n
        } else {
            0int
        }),
    decreases n,
{
    if n > 0 {
        lemma_poll_n_state(r, (n - 1) as nat);
    }
}

/// Memory latency fidelity: a read issued against a memory with latency
/// N >= 1 reports not-ready on each of its first N-1 polls, and ready on
/// the Nth, returning exactly the word stored at its address's index. The
/// `k`th poll (counting from 1) sees the state left by the `k-1` before
/// it.
pub proof fn lemma_latency_fidelity(itcm: Itcm, addr: u32, k: nat)
    requires
        itcm.spec_latency() >= 1,
        1 <= k,
    ensures
        ({
            let r0 = (ItcmRead { addr, remaining_cycles: (itcm.spec_latency() - 1) as u8 });
            &&& k < itcm.spec_latency() ==> spec_poll_output(spec_poll_n(r0, (k - 1) as nat), itcm)
                is Pending
            &&& k >= itcm.spec_latency() ==> spec_poll_output(spec_poll_n(r0, (k - 1) as nat), itcm)
                == Poll::<RawInstruction>::Ready(itcm.spec_word_at(addr))
        }),
{
    let r0 = ItcmRead { addr, remaining_cycles: (itcm.spec_latency() - 1) as u8 };
    lemma_poll_n_state(r0, (k - 1) as nat);
}

impl ItcmRead {
    /// Poll the request: while the countdown is positive, decrement it and
    /// report pending; once it has reached zero, return the word the target
    /// address selects.
    pub fn poll(&mut self, context: &Itcm) -> (r: Poll<RawInstruction>)
        ensures
            r == spec_poll_output(*old(self), *context),
            *final(self) == spec_poll_state(*old(self)),
    {
        if self.remaining_cycles > 0 {
            self.remaining_cycles = self.remaining_cycles - 1;
            Poll::Pending
        } else {
            Poll::Ready(context._read(self.addr))
        }
    }
}

impl Future for ItcmRead {
    type Output = RawInstruction;

    type Input = Itcm;

    /// Poll through the generic interface; the inherent `poll` carries the
    /// contract.
    fn poll(&mut self, context: &mut Itcm) -> Poll<RawInstruction> {
        self.poll(&*context)
    }
}

/// DTCM (Data Tightly-Coupled Memory): the data-side store. Only its timing
/// shape is modeled; no load or store moves data in this design.
pub struct Dtcm {
    data: Vec<RawInstruction>,
    latency: u16,
}

impl View for Dtcm {
    type V = Seq<RawInstruction>;

    /// The stored words, by word index.
    closed spec fn view(&self) -> Seq<RawInstruction> {
        self.data@
    }
}

impl Dtcm {
    /// The configured access latency, in cycles.
    pub closed spec fn spec_latency(self) -> u16 {
        self.latency
    }

    /// Create a zero-filled DTCM with the given per-access latency.
    pub fn new(latency: u16) -> (r: Dtcm)
        ensures
            r@.len() == DTCM_WORDS,
            forall|i: int| 0 <= i < DTCM_WORDS ==> r@[i].data == 0u32,
            r.spec_latency() == latency,
    {
        let mut data: Vec<RawInstruction> = Vec::new();
        let mut i: usize = 0;
        while i < DTCM_WORDS
            invariant
                i <= DTCM_WORDS,
                data@.len() == i,
                forall|j: int| 0 <= j < i ==> data@[j].data == 0u32,
            decreases DTCM_WORDS - i,
        {
            data.push(RawInstruction { data: 0 });
            i = i + 1;
        }
        Dtcm { data, latency }
    }
}

} // verus!
