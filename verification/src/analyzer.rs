//! The spectral analyzer's accumulation state machine.
//!
//! The analyzer consumes a sample stream one value at a time, buffers the
//! samples into an analysis window of fixed even length, and hands each
//! completed window out for transformation.  A sample travels as its raw
//! 32-bit payload; the analyzer never interprets it.  The window is handed
//! off whole, in arrival order, and the buffer restarts empty; a partially
//! filled window at end of input is discarded, never flushed.

use vstd::prelude::*;

verus! {

/// Whether `n` is a power of two (window lengths must be, so that the
/// transform algorithm accepts them).
pub open spec fn is_pow2(n: int) -> bool
    decreases n,
{
    if n < 1 {
        false
    } else if n == 1 {
        true
    } else {
        n % 2 == 0 && is_pow2(n / 2)
    }
}

/// Decide whether `n` is a power of two, as a window length must be.
pub fn is_pow2_checked(n: usize) -> (b: bool)
    ensures
        b == is_pow2(n as int),
{
    if n < 1 {
        return false;
    }
    let mut m: usize = n;
    while m > 1 && m % 2 == 0
        invariant
            1 <= m <= n,
            is_pow2(n as int) == is_pow2(m as int),
        decreases m,
    {
        m = m / 2;
    }
    m == 1
}

/// A window length that suits the transform splits evenly into its two
/// mirror halves.
pub proof fn lemma_pow2_even(n: int)
    requires
        n >= 2,
        is_pow2(n),
    ensures
        n % 2 == 0,
{
}

/// The consecutive complete windows of length `size` in `stream`, in the
/// order they are completed; a trailing partial window is not one of them.
pub open spec fn windows_of(stream: Seq<u32>, size: int) -> Seq<Seq<u32>>
    decreases stream.len(),
{
    if size < 1 || stream.len() < size {
        Seq::empty()
    } else {
        seq![stream.take(size)] + windows_of(stream.skip(size), size)
    }
}

/// What remains of `stream` after every complete window of length `size`
/// has been cut off the front.
pub open spec fn leftover_of(stream: Seq<u32>, size: int) -> Seq<u32>
    decreases stream.len(),
{
    if size < 1 || stream.len() < size {
        stream
    } else {
        leftover_of(stream.skip(size), size)
    }
}

/// The views of a sequence of emitted windows.
pub open spec fn views_of(ws: Seq<Vec<u32>>) -> Seq<Seq<u32>> {
    ws.map_values(|w: Vec<u32>| w@)
}

/// The leftover after cutting complete windows is always shorter than one
/// window.
pub proof fn lemma_leftover_short(stream: Seq<u32>, size: int)
    requires
        size >= 1,
    ensures
        leftover_of(stream, size).len() < size,
    decreases stream.len(),
{
    if stream.len() >= size {
        lemma_leftover_short(stream.skip(size), size);
    }
}

/// Appending one sample to a stream: the sample that completes a window
/// appends exactly that window to the stream's complete windows and clears
/// the leftover; any other sample only grows the leftover.
pub proof fn lemma_stream_extend(stream: Seq<u32>, s: u32, size: int)
    requires
        size >= 1,
    ensures
        leftover_of(stream, size).len() + 1 == size ==> {
            &&& windows_of(stream.push(s), size) == windows_of(stream, size).push(
                leftover_of(stream, size).push(s),
            )
            &&& leftover_of(stream.push(s), size) == Seq::<u32>::empty()
        },
        leftover_of(stream, size).len() + 1 != size ==> {
            &&& windows_of(stream.push(s), size) == windows_of(stream, size)
            &&& leftover_of(stream.push(s), size) == leftover_of(stream, size).push(s)
        },
    decreases stream.len(),
{
    let ext = stream.push(s);
    if stream.len() + 1 < size {
        assert(leftover_of(stream, size) == stream);
        assert(leftover_of(ext, size) == ext);
    } else if stream.len() + 1 == size {
        assert(leftover_of(stream, size) == stream);
        assert(windows_of(stream, size) == Seq::<Seq<u32>>::empty());
        assert(ext.take(size) =~= ext);
        assert(ext.skip(size) =~= Seq::<u32>::empty());
        assert(windows_of(ext, size) == seq![ext.take(size)] + windows_of(ext.skip(size), size));
        assert(windows_of(Seq::<u32>::empty(), size) == Seq::<Seq<u32>>::empty());
        assert(windows_of(ext, size) =~= windows_of(stream, size).push(stream.push(s)));
        assert(leftover_of(ext, size) == leftover_of(Seq::<u32>::empty(), size));
    } else {
        let tail = stream.skip(size);
        lemma_stream_extend(tail, s, size);
        assert(ext.take(size) =~= stream.take(size));
        assert(ext.skip(size) =~= tail.push(s));
        assert(windows_of(stream, size) == seq![stream.take(size)] + windows_of(tail, size));
        assert(windows_of(ext, size) == seq![stream.take(size)] + windows_of(tail.push(s), size));
        assert(leftover_of(ext, size) == leftover_of(tail.push(s), size));
        assert(leftover_of(stream, size) == leftover_of(tail, size));
        if leftover_of(tail, size).len() + 1 == size {
            assert((seq![stream.take(size)] + windows_of(tail, size).push(
                leftover_of(tail, size).push(s),
            )) =~= (seq![stream.take(size)] + windows_of(tail, size)).push(
                leftover_of(tail, size).push(s),
            ));
        }
    }
}

/// Exactly one complete window per `size` samples: a stream of length `n`
/// holds `n / size` complete windows, the `j`-th (in completion order) being
/// the `j`-th consecutive slice of the stream, and the leftover being what
/// follows the last complete window.
pub proof fn lemma_windows_exact(stream: Seq<u32>, size: int)
    requires
        size >= 1,
    ensures
        windows_of(stream, size).len() == stream.len() as int / size,
        forall|j: int|
            0 <= j < windows_of(stream, size).len() ==> #[trigger] windows_of(stream, size)[j]
                == stream.subrange(j * size, j * size + size),
        leftover_of(stream, size) == stream.skip(windows_of(stream, size).len() * size),
    decreases stream.len(),
{
    let ws = windows_of(stream, size);
    if stream.len() < size {
        vstd::arithmetic::div_mod::lemma_basic_div(stream.len() as int, size);
        assert(leftover_of(stream, size) == stream);
        assert(stream.skip(0) =~= stream);
    } else {
        let tail = stream.skip(size);
        lemma_windows_exact(tail, size);
        vstd::arithmetic::div_mod::lemma_div_plus_one(tail.len() as int, size);
        vstd::arithmetic::div_mod::lemma_fundamental_div_mod(tail.len() as int, size);
        vstd::arithmetic::div_mod::lemma_mod_bound(tail.len() as int, size);
        assert(stream.len() as int == size + tail.len() as int);
        let tws = windows_of(tail, size);
        assert(ws == seq![stream.take(size)] + tws);
        assert(ws.len() == 1 + tws.len());
        assert(tws.len() * size <= tail.len()) by (nonlinear_arith)
            requires
                size >= 1,
                tws.len() == tail.len() as int / size,
                tail.len() as int == size * (tail.len() as int / size) + tail.len() as int % size,
                tail.len() as int % size >= 0,
        ;
        assert forall|j: int| 0 <= j < ws.len() implies #[trigger] ws[j] == stream.subrange(
            j * size,
            j * size + size,
        ) by {
            if j == 0 {
                assert(ws[0] == stream.take(size));
                assert(stream.take(size) =~= stream.subrange(0 * size, 0 * size + size));
            } else {
                assert(ws[j] == tws[j - 1]);
                assert(tws[j - 1] == tail.subrange((j - 1) * size, (j - 1) * size + size));
                assert((j - 1) * size + size == j * size && 0 <= (j - 1) * size && j * size
                    <= tws.len() * size) by (nonlinear_arith)
                    requires
                        1 <= j <= tws.len(),
                        size >= 1,
                ;
                assert(tail.subrange(j * size - size, j * size) =~= stream.subrange(
                    j * size,
                    j * size + size,
                ));
            }
        }
        assert(leftover_of(stream, size) == leftover_of(tail, size));
        assert(tws.len() * size + size == ws.len() * size) by (nonlinear_arith)
            requires
                ws.len() == 1 + tws.len(),
        ;
        assert(tail.skip(tws.len() * size) =~= stream.skip(ws.len() * size));
    }
}

/// What the analyzer's input loop observed: one more sample, or the sample
/// channel closed because the producer went away.
pub enum AnalyzerEvent {
    Sample(u32),
    InputClosed,
}

/// What the loop around the analyzer must do next: keep consuming, transform
/// and emit the completed window it was handed, or stop without emitting.
pub enum AnalyzerAction {
    Consume,
    Emit(Vec<u32>),
    Stop,
}

/// Accumulates raw samples into analysis windows of a fixed length.
pub struct Analyzer {
    window: Vec<u32>,
    size: usize,
}

impl Analyzer {
    /// Samples buffered since the last completed window, oldest first.
    pub closed spec fn pending(&self) -> Seq<u32> {
        self.window@
    }

    /// Full window length: twice the number of spectrum bins.
    pub closed spec fn size(&self) -> int {
        self.size as int
    }

    /// The buffer never reaches a full window between calls, and the window
    /// length is a transform-suitable power of two.
    pub closed spec fn wf(&self) -> bool {
        &&& self.window@.len() < self.size
        &&& is_pow2(self.size as int)
        &&& self.size >= 2
    }

    /// A fresh analyzer with an empty window of length `size`.
    pub fn new(size: usize) -> (a: Analyzer)
        requires
            size >= 2,
            is_pow2(size as int),
        ensures
            a.wf(),
            a.size() == size,
            a.pending() == Seq::<u32>::empty(),
    {
        Analyzer { window: Vec::new(), size }
    }

    /// Buffer one incoming sample.  The sample that completes the window
    /// yields the full window, oldest sample first, and the buffer restarts
    /// empty; any other sample yields nothing.
    pub fn push_sample(&mut self, sample: u32) -> (r: Option<Vec<u32>>)
        requires
            old(self).wf(),
        ensures
            final(self).wf(),
            final(self).size() == old(self).size(),
            old(self).pending().len() + 1 < old(self).size() ==> {
                &&& r is None
                &&& final(self).pending() == old(self).pending().push(sample)
            },
            old(self).pending().len() + 1 == old(self).size() ==> {
                &&& r matches Some(w) && w@ == old(self).pending().push(sample)
                &&& final(self).pending() == Seq::<u32>::empty()
            },
    {
        self.window.push(sample);
        if self.window.len() == self.size {
            let mut full: Vec<u32> = Vec::new();
            core::mem::swap(&mut full, &mut self.window);
            Some(full)
        } else {
            None
        }
    }

    /// Buffer a run of samples in order.  Every window completed along the
    /// way comes back in completion order; what the run does not complete
    /// stays buffered for the next call.
    pub fn feed(&mut self, samples: &Vec<u32>) -> (out: Vec<Vec<u32>>)
        requires
            old(self).wf(),
        ensures
            final(self).wf(),
            final(self).size() == old(self).size(),
            views_of(out@) == windows_of(old(self).pending() + samples@, old(self).size()),
            final(self).pending() == leftover_of(old(self).pending() + samples@, old(self).size()),
    {
        let ghost base = old(self).pending();
        let ghost size = old(self).size();
        let mut out: Vec<Vec<u32>> = Vec::new();
        proof {
            assert(base + samples@.take(0) =~= base);
            assert(leftover_of(base, size) == base);
            assert(views_of(out@) =~= windows_of(base, size));
        }
        let mut i: usize = 0;
        while i < samples.len()
            invariant
                self.wf(),
                self.size() == size,
                size == old(self).size(),
                i <= samples@.len(),
                views_of(out@) == windows_of(base + samples@.take(i as int), size),
                self.pending() == leftover_of(base + samples@.take(i as int), size),
            decreases samples@.len() - i,
        {
            let ghost processed = base + samples@.take(i as int);
            let s = samples[i];
            proof {
                lemma_leftover_short(processed, size);
                lemma_stream_extend(processed, s, size);
                assert(processed.push(s) =~= base + samples@.take(i as int + 1));
            }
            match self.push_sample(s) {
                Some(w) => {
                    let ghost before = out@;
                    out.push(w);
                    proof {
                        assert(views_of(out@) =~= views_of(before).push(w@));
                    }
                },
                None => {},
            }
            i = i + 1;
        }
        proof {
            assert(base + samples@.take(samples@.len() as int) =~= base + samples@);
        }
        out
    }

    /// One step of the analyzer's decision loop.  The surrounding loop owns
    /// the channels and the transform: it performs the returned action
    /// (consume on, or transform and forward the emitted window, or stop)
    /// and hands back the next event.  Closing the input stops the analyzer
    /// at once; the partially filled window is not emitted.
    pub fn on_event(&mut self, event: AnalyzerEvent) -> (r: AnalyzerAction)
        requires
            old(self).wf(),
        ensures
            final(self).wf(),
            final(self).size() == old(self).size(),
            event matches AnalyzerEvent::Sample(s) ==> {
                &&& old(self).pending().len() + 1 < old(self).size() ==> {
                    &&& r is Consume
                    &&& final(self).pending() == old(self).pending().push(s)
                }
                &&& old(self).pending().len() + 1 == old(self).size() ==> {
                    &&& r matches AnalyzerAction::Emit(w) && w@ == old(self).pending().push(s)
                    &&& final(self).pending() == Seq::<u32>::empty()
                }
            },
            event is InputClosed ==> {
                &&& r is Stop
                &&& final(self).pending() == old(self).pending()
            },
    {
        match event {
            AnalyzerEvent::Sample(s) => match self.push_sample(s) {
                Some(w) => AnalyzerAction::Emit(w),
                None => AnalyzerAction::Consume,
            },
            AnalyzerEvent::InputClosed => AnalyzerAction::Stop,
        }
    }
}

} // verus!
