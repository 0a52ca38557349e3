//! Live sound that comes as bare samples: 32-bit floating point numbers in little
//! endian, held here as their bit patterns.

use vstd::prelude::*;

verus! {

/// The bit pattern that four bytes give, the lowest first.
pub open spec fn bits_of(bytes: Seq<u8>) -> u32 {
    (bytes[0] + 0x100 * bytes[1] + 0x1_0000 * bytes[2] + 0x100_0000 * bytes[3]) as u32
}

/// The samples in a run of bytes.
pub open spec fn samples_in(bytes: Seq<u8>) -> Seq<u32> {
    Seq::new(bytes.len() / 4, |i: int| bits_of(bytes.subrange(4 * i, 4 * i + 4)))
}

/// The bytes that do not make a sample yet.
pub open spec fn bytes_left(bytes: Seq<u8>) -> Seq<u8> {
    bytes.skip(bytes.len() as int / 4 * 4)
}

/// What comes out of the decoder, before it is made into sound.
#[derive(Debug)]
pub enum RawOutput {
    /// Nothing yet.
    Nothing,
    /// Samples at the rate of the model.
    Samples(Vec<u32>),
    /// Groups of three samples, each of which makes one for the model.
    Thirds(Vec<(u32, u32, u32)>),
    /// Samples that have to be brought to the rate of the model.
    Resample(Vec<u32>),
}

pub enum RawOutputView {
    Nothing,
    Samples(Seq<u32>),
    Thirds(Seq<(u32, u32, u32)>),
    Resample(Seq<u32>),
}

impl View for RawOutput {
    type V = RawOutputView;

    open spec fn view(&self) -> RawOutputView {
        match self {
            RawOutput::Nothing => RawOutputView::Nothing,
            RawOutput::Samples(samples) => RawOutputView::Samples(samples@),
            RawOutput::Thirds(thirds) => RawOutputView::Thirds(thirds@),
            RawOutput::Resample(samples) => RawOutputView::Resample(samples@),
        }
    }
}

pub open spec fn ungrouped(thirds: Seq<(u32, u32, u32)>) -> Seq<u32> {
    Seq::new(
        3 * thirds.len(),
        |k: int|
            if k % 3 == 0 {
                thirds[k / 3].0
            } else if k % 3 == 1 {
                thirds[k / 3].1
            } else {
                thirds[k / 3].2
            },
    )
}

impl RawOutputView {
    /// The samples of the stream that an output stands for.
    pub open spec fn heard(self) -> Seq<u32> {
        match self {
            RawOutputView::Nothing => seq![],
            RawOutputView::Samples(samples) => samples,
            RawOutputView::Thirds(thirds) => ungrouped(thirds),
            RawOutputView::Resample(samples) => samples,
        }
    }
}

pub struct RawLiveAudioDecoder {
    leftover_bytes: Vec<u8>,
    pending_source_samples: Vec<u32>,
    source_sample_rate: u32,
    target_sample_rate: u32,
}

#[verifier::ext_equal]
pub struct RawView {
    /// Bytes that do not make a sample yet.
    pub leftover: Seq<u8>,
    /// Samples that have not come out yet.
    pub pending: Seq<u32>,
    pub source_rate: u32,
    pub target_rate: u32,
}

impl RawView {
    pub open spec fn same_rate(self) -> bool {
        self.source_rate == self.target_rate
    }

    pub open spec fn by_thirds(self) -> bool {
        self.source_rate == 48_000 && self.target_rate == 16_000
    }

    /// How many of the waiting samples can come out by threes.  Before the end
    /// three are kept back.
    pub open spec fn usable(self, last: bool) -> int {
        let whole = self.pending.len() as int / 3 * 3;
        if last {
            whole
        } else if whole < 3 {
            0
        } else {
            whole - 3
        }
    }

    pub open spec fn output(self, last: bool) -> RawOutputView {
        if self.pending.len() == 0 {
            RawOutputView::Nothing
        } else if self.same_rate() {
            RawOutputView::Samples(self.pending)
        } else if self.by_thirds() {
            if self.usable(last) < 3 {
                RawOutputView::Nothing
            } else {
                RawOutputView::Thirds(
                    Seq::new(
                        (self.usable(last) / 3) as nat,
                        |i: int|
                            (
                                self.pending[3 * i],
                                self.pending[3 * i + 1],
                                self.pending[3 * i + 2],
                            ),
                    ),
                )
            }
        } else {
            RawOutputView::Resample(self.pending)
        }
    }

    pub open spec fn emptied(self, last: bool) -> RawView {
        RawView {
            pending: if self.by_thirds() {
                self.pending.skip(self.usable(last))
            } else {
                seq![]
            },
            ..self
        }
    }

    /// The state with more bytes read.
    pub open spec fn filled(self, bytes: Seq<u8>) -> RawView {
        RawView {
            leftover: bytes_left(self.leftover + bytes),
            pending: self.pending + samples_in(self.leftover + bytes),
            ..self
        }
    }

    /// Whether the bytes make at least one more sample.
    pub open spec fn completes(self, bytes: Seq<u8>) -> bool {
        bytes.len() > 0 && self.leftover.len() + bytes.len() >= 4
    }

    pub open spec fn pushed(self, bytes: Seq<u8>) -> RawView {
        if self.completes(bytes) {
            self.filled(bytes).emptied(false)
        } else {
            self.filled(bytes)
        }
    }

    pub open spec fn push_output(self, bytes: Seq<u8>) -> RawOutputView {
        if self.completes(bytes) {
            self.filled(bytes).output(false)
        } else {
            RawOutputView::Nothing
        }
    }

    pub open spec fn valid(self) -> bool {
        self.leftover.len() < 4
    }
}

impl View for RawLiveAudioDecoder {
    type V = RawView;

    closed spec fn view(&self) -> RawView {
        RawView {
            leftover: self.leftover_bytes@,
            pending: self.pending_source_samples@,
            source_rate: self.source_sample_rate,
            target_rate: self.target_sample_rate,
        }
    }
}

fn read_bits(bytes: &Vec<u8>, at: usize) -> (bits: u32)
    requires
        at + 4 <= bytes.len(),
    ensures
        bits == bits_of(bytes@.subrange(at as int, at + 4)),
{
    bytes[at] as u32 + 0x100 * bytes[at + 1] as u32 + 0x1_0000 * bytes[at + 2] as u32 + 0x100_0000
        * bytes[at + 3] as u32
}

impl RawLiveAudioDecoder {
    pub fn new(source_sample_rate: u32, target_sample_rate: u32) -> (decoder: Self)
        ensures
            decoder@ == (RawView {
                leftover: seq![],
                pending: seq![],
                source_rate: source_sample_rate,
                target_rate: target_sample_rate,
            }),
            decoder@.valid(),
    {
        let decoder = RawLiveAudioDecoder {
            leftover_bytes: Vec::new(),
            pending_source_samples: Vec::new(),
            source_sample_rate,
            target_sample_rate,
        };
        assert(decoder@.leftover =~= seq![]);
        assert(decoder@.pending =~= seq![]);
        decoder
    }

    /// Takes bytes and gives what they complete.
    pub fn push_bytes(&mut self, bytes: &[u8]) -> (output: RawOutput)
        requires
            old(self)@.valid(),
        ensures
            final(self)@.valid(),
            final(self)@ == old(self)@.pushed(bytes@),
            output@ == old(self)@.push_output(bytes@),
    {
        let ghost all = old(self)@.leftover + bytes@;
        for i in 0..bytes.len()
            invariant
                self@ == (RawView {
                    leftover: old(self)@.leftover + bytes@.take(i as int),
                    ..old(self)@
                }),
        {
            self.leftover_bytes.push(bytes[i]);
            assert(self@.leftover =~= old(self)@.leftover + bytes@.take(i + 1));
        }
        assert(self@.leftover =~= all);
        let count = self.leftover_bytes.len() / 4;
        if bytes.len() == 0 || count == 0 {
            assert(samples_in(all) =~= seq![]);
            assert(bytes_left(all) =~= all);
            assert(self@ =~= old(self)@.filled(bytes@));
            return RawOutput::Nothing;
        }
        for i in 0..count
            invariant
                count == self.leftover_bytes.len() / 4,
                self@ == (RawView {
                    leftover: all,
                    pending: old(self)@.pending + samples_in(all).take(i as int),
                    ..old(self)@
                }),
        {
            let bits = read_bits(&self.leftover_bytes, 4 * i);
            self.pending_source_samples.push(bits);
            assert(self@.pending =~= old(self)@.pending + samples_in(all).take(i + 1));
        }
        assert(samples_in(all).take(count as int) =~= samples_in(all));
        let rest = self.leftover_bytes.split_off(4 * count);
        self.leftover_bytes = rest;
        assert(self@.leftover =~= bytes_left(all));
        assert(self@ =~= old(self)@.filled(bytes@));
        self.take_output(false)
    }

    /// Ends the stream: bytes that do not make a sample are dropped.
    pub fn finish(&mut self) -> (output: RawOutput)
        requires
            old(self)@.valid(),
        ensures
            final(self)@.valid(),
            output@ == old(self)@.output(true),
            final(self)@ == (RawView { leftover: seq![], ..old(self)@.emptied(true) }),
    {
        self.leftover_bytes = Vec::new();
        assert(self@.leftover =~= seq![]);
        let output = self.take_output(true);
        assert(self@ =~= (RawView { leftover: seq![], ..old(self)@.emptied(true) }));
        output
    }

    fn take_all(&mut self) -> (samples: Vec<u32>)
        ensures
            samples@ == old(self)@.pending,
            final(self)@ == (RawView { pending: seq![], ..old(self)@ }),
    {
        let mut samples: Vec<u32> = Vec::new();
        core::mem::swap(&mut samples, &mut self.pending_source_samples);
        assert(self@.pending =~= seq![]);
        samples
    }

    fn take_output(&mut self, last: bool) -> (output: RawOutput)
        ensures
            output@ == old(self)@.output(last),
            final(self)@ == old(self)@.emptied(last),
    {
        let len = self.pending_source_samples.len();
        if len == 0 {
            assert(self@ =~= old(self)@.emptied(last));
            return RawOutput::Nothing;
        }
        if self.source_sample_rate == self.target_sample_rate {
            let samples = self.take_all();
            assert(self@ =~= old(self)@.emptied(last));
            return RawOutput::Samples(samples);
        }
        if self.source_sample_rate == 48_000 && self.target_sample_rate == 16_000 {
            let whole = len / 3 * 3;
            let usable: usize = if last {
                whole
            } else if whole < 3 {
                0
            } else {
                whole - 3
            };
            if usable < 3 {
                assert(self@.usable(last) == 0);
                assert(self@ =~= old(self)@.emptied(last));
                return RawOutput::Nothing;
            }
            let count = usable / 3;
            let mut thirds: Vec<(u32, u32, u32)> = Vec::new();
            for i in 0..count
                invariant
                    self@ == old(self)@,
                    3 * count <= self.pending_source_samples.len(),
                    thirds@.len() == i,
                    forall|j: int|
                        0 <= j < i ==> #[trigger] thirds@[j] == (
                            self@.pending[3 * j],
                            self@.pending[3 * j + 1],
                            self@.pending[3 * j + 2],
                        ),
            {
                thirds.push(
                    (
                        self.pending_source_samples[3 * i],
                        self.pending_source_samples[3 * i + 1],
                        self.pending_source_samples[3 * i + 2],
                    ),
                );
            }
            let ghost before = self@;
            let rest = self.pending_source_samples.split_off(usable);
            self.pending_source_samples = rest;
            assert(self@.pending =~= before.pending.skip(usable as int));
            let output = RawOutput::Thirds(thirds);
            assert(output@->Thirds_0 =~= before.output(last)->Thirds_0);
            assert(self@ =~= old(self)@.emptied(last));
            return output;
        }
        let samples = self.take_all();
        assert(self@ =~= old(self)@.emptied(last));
        RawOutput::Resample(samples)
    }
}

/// No sample is lost, heard twice or out of order: what comes out, followed by
/// what waits, is what waited before, followed by what the bytes bring.
pub proof fn law_raw_samples_are_kept(decoder: RawView, bytes: Seq<u8>)
    requires
        decoder.valid(),
    ensures
        decoder.push_output(bytes).heard() + decoder.pushed(bytes).pending == decoder.pending
            + samples_in(decoder.leftover + bytes),
        decoder.pushed(bytes).leftover == bytes_left(decoder.leftover + bytes),
        decoder.pushed(bytes).valid(),
{
    let filled = decoder.filled(bytes);
    if decoder.completes(bytes) {
        let out = filled.output(false);
        assert(out.heard() + filled.emptied(false).pending =~= filled.pending);
    } else {
        assert(RawOutputView::Nothing.heard() + filled.pending =~= filled.pending);
    }
}

/// It does not matter how a stream is cut into pieces: the samples of two pieces
/// are the samples of both together.
pub proof fn law_pieces_of_bytes_add_up(first: Seq<u8>, second: Seq<u8>)
    ensures
        samples_in(first + second) == samples_in(first) + samples_in(bytes_left(first) + second),
        bytes_left(first + second) == bytes_left(bytes_left(first) + second),
{
    let all = first + second;
    let later = bytes_left(first) + second;
    let cut = first.len() as int / 4 * 4;
    assert(all.len() == cut + later.len());
    assert forall|i: int| 0 <= i < samples_in(all).len() implies samples_in(all)[i] == (samples_in(
        first,
    ) + samples_in(later))[i] by {
        if i < samples_in(first).len() {
            assert(all.subrange(4 * i, 4 * i + 4) =~= first.subrange(4 * i, 4 * i + 4));
        } else {
            let j = i - samples_in(first).len();
            assert(all.subrange(4 * i, 4 * i + 4) =~= later.subrange(4 * j, 4 * j + 4));
        }
    }
    assert(samples_in(all) =~= samples_in(first) + samples_in(later));
    assert(bytes_left(all) =~= bytes_left(later));
}

/// At the end all that waits comes out, but for what does not fill a group of
/// three.
pub proof fn law_the_end_empties_the_decoder(decoder: RawView)
    ensures
        decoder.output(true).heard() + decoder.emptied(true).pending == decoder.pending,
        decoder.emptied(true).pending.len() < 3,
        !decoder.by_thirds() ==> decoder.emptied(true).pending.len() == 0,
{
    assert(decoder.output(true).heard() + decoder.emptied(true).pending =~= decoder.pending);
}

/// Four bytes are a number with its lowest byte first.
pub proof fn law_samples_come_lowest_byte_first(n: u32)
    ensures
        bits_of(
            seq![
                (n % 0x100) as u8,
                (n / 0x100 % 0x100) as u8,
                (n / 0x1_0000 % 0x100) as u8,
                (n / 0x100_0000) as u8,
            ],
        ) == n,
        forall|bytes: Seq<u8>|
            bytes.len() == 4 ==> #[trigger] samples_in(bytes) == seq![bits_of(bytes)] && bytes_left(
                bytes,
            ).len() == 0,
        forall|bytes: Seq<u8>| bytes.len() < 4 ==> (#[trigger] samples_in(bytes)).len() == 0,
{
    assert(n == n % 0x100 + 0x100 * (n / 0x100 % 0x100) + 0x1_0000 * (n / 0x1_0000 % 0x100)
        + 0x100_0000 * (n / 0x100_0000)) by (bit_vector);
    assert(n / 0x100_0000 < 0x100) by (bit_vector);
    assert forall|bytes: Seq<u8>| bytes.len() == 4 implies #[trigger] samples_in(bytes) == seq![
        bits_of(bytes),
    ] by {
        assert(bytes.subrange(0, 4) =~= bytes);
        assert(samples_in(bytes) =~= seq![bits_of(bytes)]);
    }
}

/// Samples at the rate of the model go on as they are; from 48 kHz to 16 kHz three
/// make one, and all other rates are brought to that of the model.  Nothing comes
/// out of nothing.
pub proof fn law_rates_decide_what_comes_out(decoder: RawView, last: bool)
    ensures
        ({
            let out = decoder.output(last);
            &&& decoder.pending.len() == 0 ==> out is Nothing
            &&& decoder.pending.len() > 0 && decoder.source_rate == decoder.target_rate ==> out
                == RawOutputView::Samples(decoder.pending)
            &&& decoder.pending.len() > 0 && decoder.source_rate != decoder.target_rate && !(
            decoder.source_rate == 48_000 && decoder.target_rate == 16_000) ==> out
                == RawOutputView::Resample(decoder.pending)
            &&& decoder.source_rate == 48_000 && decoder.target_rate == 16_000 ==> out is Nothing
                || out is Thirds
            &&& decoder.emptied(last).source_rate == decoder.source_rate
            &&& decoder.emptied(last).target_rate == decoder.target_rate
            &&& decoder.emptied(last).leftover == decoder.leftover
        }),
{
}

/// By threes all whole groups come out at the end, and all but the last one
/// before, in order.
pub proof fn law_groups_of_three_come_out(decoder: RawView, last: bool)
    requires
        decoder.source_rate == 48_000,
        decoder.target_rate == 16_000,
    ensures
        ({
            let out = decoder.output(last);
            let groups = decoder.pending.len() as int / 3;
            let count = if last || groups == 0 {
                groups
            } else {
                groups - 1
            };
            &&& count == 0 ==> out is Nothing
            &&& count > 0 ==> (out matches RawOutputView::Thirds(thirds) && thirds.len() == count
                && forall|i: int|
                0 <= i < count ==> #[trigger] thirds[i] == (
                    decoder.pending[3 * i],
                    decoder.pending[3 * i + 1],
                    decoder.pending[3 * i + 2],
                ))
            &&& decoder.emptied(last).pending == decoder.pending.skip(3 * count)
        }),
{
}

/// Bytes that complete a sample let out at once what can come out; others only
/// wait.
pub proof fn law_bytes_let_out_what_they_complete(decoder: RawView, bytes: Seq<u8>)
    requires
        decoder.valid(),
    ensures
        ({
            let filled = RawView {
                leftover: bytes_left(decoder.leftover + bytes),
                pending: decoder.pending + samples_in(decoder.leftover + bytes),
                source_rate: decoder.source_rate,
                target_rate: decoder.target_rate,
            };
            &&& bytes.len() > 0 && decoder.leftover.len() + bytes.len() >= 4
                ==> decoder.push_output(bytes) == filled.output(false) && decoder.pushed(bytes)
                == filled.emptied(false)
            &&& bytes.len() == 0 || decoder.leftover.len() + bytes.len() < 4
                ==> decoder.push_output(bytes) is Nothing && decoder.pushed(bytes) == filled
        }),
{
}

} // verus!
