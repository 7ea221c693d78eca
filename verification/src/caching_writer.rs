//! The bookkeeping of a writer that passes an adapter's output on unchanged
//! and keeps a compressed copy of it for as long as that copy stays within a
//! size budget.
//!
//! The bytes themselves travel downstream outside this module. For every
//! buffer the caller asks `write` what is to go downstream, sends it, and
//! reports with `record` how many bytes were accepted.

use std::io::Write;
use vstd::prelude::*;
use vstd::slice::slice_subrange;
use zstd::stream::write::Encoder;

verus! {

/// A running `zstd::stream::write::Encoder` that writes into a `Vec` in
/// memory. Nothing is known of it but what the functions below state.
#[verifier::external_body]
pub struct Compressor {
    inner: Encoder<'static, Vec<u8>>,
}

/// `std::io::Error`, carried through as the compressor reported it.
#[verifier::external_type_specification]
#[verifier::external_body]
pub struct ExIoError(std::io::Error);

/// The bytes that the compressor has taken in so far.
pub uninterp spec fn encoder_input(enc: Compressor) -> Seq<u8>;

/// The compressed bytes that stand in the `Vec` behind the compressor so far.
pub uninterp spec fn encoder_output(enc: Compressor) -> Seq<u8>;

/// The compression level that the compressor was made with.
pub uninterp spec fn encoder_level(enc: Compressor) -> i32;

/// The number of bytes that the compressor still holds in its own buffers,
/// on their way to the `Vec`.
pub uninterp spec fn encoder_buffered(enc: Compressor) -> nat;

/// The complete compressed frame that finishing the compressor yields.
pub uninterp spec fn encoder_frame(enc: Compressor) -> Seq<u8>;

/// Whether zstd makes a compressor at that level.
pub uninterp spec fn encoder_starts(level: i32) -> bool;

/// Whether the compressor, as it is, takes that buffer without failing.
pub uninterp spec fn encoder_takes(enc: Compressor, buf: Seq<u8>) -> bool;

/// The number of bytes of the buffer that the compressor, as it is, takes in
/// one write.
pub uninterp spec fn encoder_taken(enc: Compressor, buf: Seq<u8>) -> nat;

/// The compressor as it is after it took of that buffer in one write.
pub uninterp spec fn encoder_fed(enc: Compressor, buf: Seq<u8>) -> Compressor;

/// Whether the compressor, as it is, flushes without failing.
pub uninterp spec fn encoder_flushes(enc: Compressor) -> bool;

/// Whether the compressor, as it is, finishes without failing.
pub uninterp spec fn encoder_finishes(enc: Compressor) -> bool;

/// The bytes that decoding a zstd frame gives back.
pub uninterp spec fn frame_content(frame: Seq<u8>) -> Seq<u8>;

/// `Encoder::new` on an empty `Vec`: where zstd accepts the level, a
/// compressor made with it that has taken nothing in and put nothing out.
/// Whether it does depends on the level alone.
#[verifier::external_body]
fn start_encoder(level: i32) -> (r: Result<Compressor, std::io::Error>)
    ensures
        r is Ok <==> encoder_starts(level),
        r matches Ok(enc) ==> encoder_level(enc) == level && encoder_input(enc).len() == 0
            && encoder_output(enc).len() == 0,
{
    match Encoder::new(Vec::new(), level) {
        Ok(inner) => Ok(Compressor { inner }),
        Err(e) => Err(e),
    }
}

/// `Write::write` of `Encoder`: on success it has taken in a prefix of the
/// buffer, not an empty one unless the buffer is empty, and returns that
/// prefix's length. The level stays. Whether it succeeds, how much it takes
/// and what state it is left in depend on the compressor and the buffer
/// alone: the `Vec` that it writes to never refuses.
#[verifier::external_body]
fn feed(enc: &mut Compressor, buf: &[u8]) -> (r: Result<usize, std::io::Error>)
    ensures
        r is Ok <==> encoder_takes(*old(enc), buf@),
        encoder_level(*final(enc)) == encoder_level(*old(enc)),
        r matches Ok(n) ==> {
            &&& n == encoder_taken(*old(enc), buf@)
            &&& *final(enc) == encoder_fed(*old(enc), buf@)
            &&& n <= buf@.len()
            &&& buf@.len() > 0 ==> n > 0
            &&& encoder_input(*final(enc)) == encoder_input(*old(enc)) + buf@.subrange(
                0,
                n as int,
            )
        },
{
    enc.inner.write(buf)
}

/// `Encoder::get_ref` and the length of the `Vec` behind it.
#[verifier::external_body]
fn emitted_len(enc: &Compressor) -> (r: usize)
    ensures
        r == encoder_output(*enc).len(),
{
    enc.inner.get_ref().len()
}

/// `Write::flush` of `Encoder`: on success the compressor's buffers are
/// empty, what they held stands in the `Vec` behind what stood there before,
/// and the input taken in is what it was. The level stays. Whether it
/// succeeds depends on the compressor alone.
#[verifier::external_body]
fn flush_encoder(enc: &mut Compressor) -> (r: Result<(), std::io::Error>)
    ensures
        r is Ok <==> encoder_flushes(*old(enc)),
        encoder_level(*final(enc)) == encoder_level(*old(enc)),
        r is Ok ==> {
            &&& encoder_input(*final(enc)) == encoder_input(*old(enc))
            &&& encoder_buffered(*final(enc)) == 0
            &&& encoder_output(*old(enc)).is_prefix_of(encoder_output(*final(enc)))
        },
{
    enc.inner.flush()
}

/// `Encoder::finish`: on success the `Vec` that holds the complete frame,
/// which decodes to the input that the compressor took in. Whether it
/// succeeds depends on the compressor alone.
#[verifier::external_body]
fn finish_encoder(enc: Compressor) -> (r: Result<Vec<u8>, std::io::Error>)
    ensures
        r is Ok <==> encoder_finishes(enc),
        r matches Ok(frame) ==> frame@ == encoder_frame(enc) && frame_content(frame@)
            == encoder_input(enc),
{
    enc.inner.finish()
}

/// A failure of the compressor, with the error that it reported.
#[derive(Debug)]
pub struct CompressorError {
    pub source: std::io::Error,
}

/// What the compressor gave, with its failure as this library reports it.
pub fn reported<T>(outcome: Result<T, std::io::Error>) -> (r: Result<T, CompressorError>)
    ensures
        match outcome {
            Ok(value) => r == Ok::<T, CompressorError>(value),
            Err(e) => r == Err::<T, CompressorError>(CompressorError { source: e }),
        },
{
    match outcome {
        Ok(value) => Ok(value),
        Err(e) => Err(CompressorError { source: e }),
    }
}

/// What becomes of a compressor that is given a whole buffer under a budget.
pub ghost enum Fed {
    /// The compressor refused a piece of the buffer.
    Failed,
    /// The compressed copy outgrew the budget when it had reached this size;
    /// `finishes` says whether the compressor could then be finished.
    GivenUp { compressed_len: nat, finishes: bool },
    /// The compressor took the whole buffer and is left in this state, its
    /// output within the budget.
    Kept { compressor: Compressor },
}

/// Gives the compressor the buffer in as many writes as it takes, and holds
/// its output against the budget after each of them.
pub open spec fn feed_whole(enc: Compressor, buf: Seq<u8>, budget: nat) -> Fed
    decreases buf.len(),
{
    if !encoder_takes(enc, buf) {
        Fed::Failed
    } else {
        let n = encoder_taken(enc, buf);
        let next = encoder_fed(enc, buf);
        if !fits(encoder_output(next).len(), budget) {
            Fed::GivenUp {
                compressed_len: encoder_output(next).len(),
                finishes: encoder_finishes(next),
            }
        } else if n == 0 || n >= buf.len() {
            Fed::Kept { compressor: next }
        } else {
            feed_whole(next, buf.skip(n as int), budget)
        }
    }
}

/// What is to go downstream for a buffer handed to `write`.
pub enum Forward {
    /// The whole buffer, of `wrote` bytes, all of them: the compressor was
    /// given it, and its output had reached `compressed_len` bytes when it
    /// was last held against the budget.
    All { wrote: usize, compressed_len: usize },
    /// The buffer, as far as downstream accepts it in one write.
    Offer,
}

/// Whether a compressed copy of that size is within the budget.
pub open spec fn fits(compressed_len: nat, budget: nat) -> bool {
    compressed_len <= budget
}

/// Decides whether a compressed copy of that size is kept.
pub fn within_budget(compressed_len: usize, max_cache_size: usize) -> (r: bool)
    ensures
        r == fits(compressed_len as nat, max_cache_size as nat),
{
    compressed_len <= max_cache_size
}

/// What of a writer's state decides the outcome of `finish`.
pub ghost struct Progress {
    /// Whether a compressed copy is still being kept.
    pub caching: bool,
    /// The largest compressed copy that is kept.
    pub budget: nat,
    /// The bytes accepted downstream so far.
    pub total: nat,
}

/// What happens to a writer between its creation and `finish`.
pub ghost enum Event {
    /// A buffer went to the compressor, whose output then had this size.
    Took { compressed_len: nat },
    /// Downstream accepted so many bytes.
    Accepted { bytes: nat },
}

pub open spec fn step(p: Progress, e: Event) -> Progress {
    match e {
        Event::Took { compressed_len } => Progress {
            caching: p.caching && fits(compressed_len, p.budget),
            ..p
        },
        Event::Accepted { bytes } => Progress { total: p.total + bytes, ..p },
    }
}

/// The progress after the events, in their order.
pub open spec fn replay(p: Progress, events: Seq<Event>) -> Progress
    decreases events.len(),
{
    if events.len() == 0 {
        p
    } else {
        step(replay(p, events.drop_last()), events.last())
    }
}

/// The bytes that downstream accepted in the course of the events.
pub open spec fn accepted_sum(events: Seq<Event>) -> nat
    decreases events.len(),
{
    if events.len() == 0 {
        0
    } else {
        accepted_sum(events.drop_last()) + match events.last() {
            Event::Accepted { bytes } => bytes,
            Event::Took { .. } => 0,
        }
    }
}

/// What `finish` yields where the compressor, if one is left, ends with the
/// given frame.
pub open spec fn final_outcome(p: Progress, frame: Seq<u8>) -> (nat, Option<Seq<u8>>) {
    (
        p.total,
        if p.caching && fits(frame.len(), p.budget) {
            Some(frame)
        } else {
            None
        },
    )
}

pub open spec fn bytes_of(cached: Option<Vec<u8>>) -> Option<Seq<u8>> {
    match cached {
        Some(v) => Some(v@),
        None => None,
    }
}

/// The state of a caching writer: the budget, the running compressor while
/// the copy is within the budget, and the bytes accepted downstream so far.
pub struct CachingWriter {
    max_cache_size: usize,
    zstd_writer: Option<Compressor>,
    bytes_written: u64,
}

impl CachingWriter {
    /// Whether a compressed copy is still being kept.
    pub closed spec fn is_caching(&self) -> bool {
        self.zstd_writer is Some
    }

    /// The largest compressed copy that is kept.
    pub closed spec fn budget(&self) -> usize {
        self.max_cache_size
    }

    /// The bytes accepted downstream so far.
    pub closed spec fn total(&self) -> u64 {
        self.bytes_written
    }

    /// The bytes that went into the compressed copy so far.
    pub closed spec fn cached_input(&self) -> Seq<u8>
        recommends
            self.is_caching(),
    {
        encoder_input(self.zstd_writer->0)
    }

    /// The size that the compressed copy has reached so far.
    pub closed spec fn cached_len(&self) -> nat
        recommends
            self.is_caching(),
    {
        encoder_output(self.zstd_writer->0).len()
    }

    /// The level at which the copy is compressed.
    pub closed spec fn level(&self) -> i32
        recommends
            self.is_caching(),
    {
        encoder_level(self.zstd_writer->0)
    }

    /// The number of bytes that the compressor holds back from the copy.
    pub closed spec fn held_back(&self) -> nat
        recommends
            self.is_caching(),
    {
        encoder_buffered(self.zstd_writer->0)
    }

    /// The compressed copy as it would be if the writer were finished now.
    pub closed spec fn artifact(&self) -> Seq<u8>
        recommends
            self.is_caching(),
    {
        encoder_frame(self.zstd_writer->0)
    }

    /// The compressor that keeps the copy.
    pub closed spec fn compressor(&self) -> Compressor
        recommends
            self.is_caching(),
    {
        self.zstd_writer->0
    }

    /// What becomes of the copy if the whole buffer is written.
    pub open spec fn fed(&self, buf: Seq<u8>) -> Fed
        recommends
            self.is_caching(),
    {
        feed_whole(self.compressor(), buf, self.budget() as nat)
    }

    /// Whether the compressor flushes without failing.
    pub closed spec fn flushes(&self) -> bool
        recommends
            self.is_caching(),
    {
        encoder_flushes(self.zstd_writer->0)
    }

    /// Whether the compressor finishes without failing.
    pub closed spec fn finishes(&self) -> bool
        recommends
            self.is_caching(),
    {
        encoder_finishes(self.zstd_writer->0)
    }

    pub open spec fn progress(&self) -> Progress {
        Progress {
            caching: self.is_caching(),
            budget: self.budget() as nat,
            total: self.total() as nat,
        }
    }

    /// Whether the compressor, if any, is in the same state in both.
    pub closed spec fn same_cache(&self, other: &Self) -> bool {
        self.zstd_writer == other.zstd_writer
    }

    /// A writer that has passed nothing on yet and keeps a copy, compressed
    /// at the given level, of at most `max_cache_size` bytes.
    pub fn new(max_cache_size: usize, compression_level: i32) -> (r: Result<
        CachingWriter,
        CompressorError,
    >)
        ensures
            r is Ok <==> encoder_starts(compression_level),
            r matches Ok(w) ==> w.is_caching() && w.budget() == max_cache_size && w.total() == 0
                && w.level() == compression_level && w.cached_input().len() == 0
                && w.cached_len() == 0,
    {
        match reported(start_encoder(compression_level)) {
            Ok(enc) => Ok(
                CachingWriter { max_cache_size, zstd_writer: Some(enc), bytes_written: 0 },
            ),
            Err(e) => Err(e),
        }
    }

    /// The bytes accepted downstream so far.
    pub fn bytes_written(&self) -> (r: u64)
        ensures
            r == self.total(),
    {
        self.bytes_written
    }

    /// Takes the whole buffer into the compressed copy, if one is still
    /// kept, and says what is to go downstream. A copy that has outgrown the
    /// budget is given up for good.
    pub fn write(&mut self, buf: &[u8]) -> (r: Result<Forward, CompressorError>)
        ensures
            final(self).budget() == old(self).budget(),
            final(self).total() == old(self).total(),
            !old(self).is_caching() ==> (r matches Ok(Forward::Offer)) && !final(self).is_caching(),
            r matches Ok(Forward::Offer) ==> final(self).progress() == old(self).progress(),
            old(self).is_caching() ==> match old(self).fed(buf@) {
                Fed::Failed => r is Err && final(self).is_caching(),
                Fed::GivenUp { compressed_len, finishes } => {
                    &&& !final(self).is_caching()
                    &&& r is Ok <==> finishes
                    &&& r matches Ok(f) ==> (f matches Forward::All { wrote, compressed_len: len }
                        && wrote == buf@.len() && len == compressed_len)
                },
                Fed::Kept { compressor } => {
                    &&& r matches Ok(Forward::All { wrote, compressed_len: len }) && wrote
                        == buf@.len() && len == encoder_output(compressor).len()
                    &&& final(self).is_caching()
                    &&& final(self).compressor() == compressor
                },
            },
            r matches Ok(Forward::All { wrote, compressed_len }) ==> {
                &&& wrote == buf@.len()
                &&& final(self).progress() == step(
                    old(self).progress(),
                    Event::Took { compressed_len: compressed_len as nat },
                )
                &&& final(self).is_caching() == fits(
                    compressed_len as nat,
                    old(self).budget() as nat,
                )
                &&& final(self).is_caching() ==> {
                    &&& final(self).cached_len() == compressed_len
                    &&& final(self).cached_input() == old(self).cached_input() + buf@
                    &&& final(self).level() == old(self).level()
                }
            },
    {
        match self.zstd_writer.take() {
            Some(start) => {
                let ghost first = start;
                let ghost budget = self.max_cache_size as nat;
                let mut writer = start;
                let mut done: usize = 0;
                proof {
                    assert(buf@.skip(0) =~= buf@);
                    assert(encoder_input(first) + buf@.subrange(0, 0) =~= encoder_input(first));
                }
                loop
                    invariant
                        done <= buf@.len(),
                        budget == self.max_cache_size,
                        self.max_cache_size == old(self).max_cache_size,
                        self.bytes_written == old(self).bytes_written,
                        self.zstd_writer is None,
                        old(self).zstd_writer == Some(first),
                        feed_whole(first, buf@, budget) == feed_whole(
                            writer,
                            buf@.skip(done as int),
                            budget,
                        ),
                        encoder_input(writer) == encoder_input(first) + buf@.subrange(
                            0,
                            done as int,
                        ),
                        encoder_level(writer) == encoder_level(first),
                    decreases buf@.len() - done,
                {
                    let rest = slice_subrange(buf, done, buf.len());
                    proof {
                        assert(rest@ =~= buf@.skip(done as int));
                    }
                    match reported(feed(&mut writer, rest)) {
                        Ok(took) => {
                            proof {
                                assert(rest@.skip(took as int) =~= buf@.skip(done + took));
                                assert(buf@.subrange(0, done as int) + rest@.subrange(
                                    0,
                                    took as int,
                                ) =~= buf@.subrange(0, done + took));
                            }
                            done = done + took;
                            let compressed_len = emitted_len(&writer);
                            if !within_budget(compressed_len, self.max_cache_size) {
                                match reported(finish_encoder(writer)) {
                                    Ok(_) => {
                                        return Ok(
                                            Forward::All { wrote: buf.len(), compressed_len },
                                        );
                                    },
                                    Err(e) => {
                                        return Err(e);
                                    },
                                }
                            }
                            if done >= buf.len() {
                                proof {
                                    assert(buf@.subrange(0, done as int) =~= buf@);
                                }
                                self.zstd_writer = Some(writer);
                                return Ok(Forward::All { wrote: buf.len(), compressed_len });
                            }
                        },
                        Err(e) => {
                            self.zstd_writer = Some(writer);
                            return Err(e);
                        },
                    }
                }
            },
            None => Ok(Forward::Offer),
        }
    }

    /// Counts bytes that downstream has accepted.
    pub fn record(&mut self, accepted: usize)
        requires
            old(self).total() + accepted <= u64::MAX,
        ensures
            final(self).total() == old(self).total() + accepted,
            final(self).progress() == step(
                old(self).progress(),
                Event::Accepted { bytes: accepted as nat },
            ),
            final(self).budget() == old(self).budget(),
            final(self).is_caching() == old(self).is_caching(),
            final(self).same_cache(old(self)),
    {
        self.bytes_written = self.bytes_written + accepted as u64;
    }

    /// Flushes the compressor, if a copy is still kept: what it held back
    /// joins the copy, which is kept whatever size it reaches by that.
    /// Downstream is flushed after it.
    pub fn flush(&mut self) -> (r: Result<(), CompressorError>)
        ensures
            final(self).budget() == old(self).budget(),
            final(self).total() == old(self).total(),
            final(self).is_caching() == old(self).is_caching(),
            final(self).progress() == old(self).progress(),
            !old(self).is_caching() ==> r is Ok,
            old(self).is_caching() ==> (r is Ok <==> old(self).flushes()),
            !old(self).is_caching() ==> final(self).same_cache(old(self)),
            old(self).is_caching() ==> final(self).level() == old(self).level(),
            r is Ok && old(self).is_caching() ==> {
                &&& final(self).held_back() == 0
                &&& final(self).cached_len() >= old(self).cached_len()
                &&& final(self).cached_input() == old(self).cached_input()
            },
    {
        match self.zstd_writer.take() {
            Some(mut writer) => {
                let flushed = reported(flush_encoder(&mut writer));
                self.zstd_writer = Some(writer);
                flushed
            },
            None => Ok(()),
        }
    }

    /// Ends the writer: the bytes accepted downstream, and the compressed
    /// copy if one was kept to the end and is within the budget.
    pub fn finish(self) -> (r: Result<(u64, Option<Vec<u8>>), CompressorError>)
        ensures
            !self.is_caching() ==> r is Ok,
            self.is_caching() ==> (r is Ok <==> self.finishes()),
            r matches Ok((total, cached)) ==> (total as nat, bytes_of(cached)) == final_outcome(
                self.progress(),
                self.artifact(),
            ),
            r matches Ok((_, Some(copy))) ==> frame_content(copy@) == self.cached_input(),
    {
        if let Some(writer) = self.zstd_writer {
            match reported(finish_encoder(writer)) {
                Ok(res) => {
                    if within_budget(res.len(), self.max_cache_size) {
                        return Ok((self.bytes_written, Some(res)));
                    }
                },
                Err(e) => {
                    return Err(e);
                },
            }
        }
        Ok((self.bytes_written, None))
    }
}

/// The events change neither the budget nor, but by what downstream
/// accepted, the total: whatever becomes of the copy, the total is the sum of
/// the bytes accepted.
pub proof fn law_total_is_sum(p: Progress, events: Seq<Event>)
    ensures
        replay(p, events).total == p.total + accepted_sum(events),
        replay(p, events).budget == p.budget,
    decreases events.len(),
{
    if events.len() > 0 {
        law_total_is_sum(p, events.drop_last());
    }
}

/// A copy that was given up is never taken up again.
pub proof fn law_drop_is_final(p: Progress, events: Seq<Event>)
    requires
        !p.caching,
    ensures
        !replay(p, events).caching,
    decreases events.len(),
{
    if events.len() > 0 {
        law_drop_is_final(p, events.drop_last());
    }
}

/// Once the compressed size has exceeded the budget, at whatever point, no
/// copy comes out at the end, and the total is still the sum of the bytes
/// accepted.
pub proof fn law_overflow_yields_no_copy(p: Progress, events: Seq<Event>, i: int, frame: Seq<u8>)
    requires
        0 <= i < events.len(),
        events[i] matches Event::Took { compressed_len } && !fits(compressed_len, p.budget),
    ensures
        !replay(p, events).caching,
        final_outcome(replay(p, events), frame) == (p.total + accepted_sum(events), None::<Seq<u8>>),
    decreases events.len(),
{
    law_total_is_sum(p, events);
    law_total_is_sum(p, events.drop_last());
    if i < events.len() - 1 {
        assert(events.drop_last()[i] == events[i]);
        law_overflow_yields_no_copy(p, events.drop_last(), i, frame);
    }
}

/// While the compressed size stays within the budget the copy is kept, and
/// it comes out at the end exactly if the finished frame is within the
/// budget too.
pub proof fn law_copy_within_budget(p: Progress, events: Seq<Event>, frame: Seq<u8>)
    requires
        p.caching,
        forall|i: int|
            0 <= i < events.len() ==> (#[trigger] events[i] matches Event::Took { compressed_len }
                ==> fits(compressed_len, p.budget)),
    ensures
        replay(p, events).caching,
        final_outcome(replay(p, events), frame) == (
            p.total + accepted_sum(events),
            if fits(frame.len(), p.budget) {
                Some(frame)
            } else {
                None
            },
        ),
    decreases events.len(),
{
    law_total_is_sum(p, events);
    if events.len() > 0 {
        let before = events.drop_last();
        assert forall|i: int| 0 <= i < before.len() implies (#[trigger] before[i] matches Event::Took {
            compressed_len,
        } ==> fits(compressed_len, p.budget)) by {
            assert(before[i] == events[i]);
        }
        law_copy_within_budget(p, before, frame);
        law_total_is_sum(p, before);
    }
}

/// A successful write followed by the report of what went downstream adds
/// exactly that to the total, whatever becomes of the copy.
pub proof fn law_total_after_write(p: Progress, compressed_len: nat, accepted: nat)
    ensures
        step(step(p, Event::Took { compressed_len }), Event::Accepted { bytes: accepted }).total
            == p.total + accepted,
        step(p, Event::Accepted { bytes: accepted }).total == p.total + accepted,
{
}

} // verus!
