//! Where the direct-to-sink wrappers send their output.
use vstd::prelude::*;

verus! {

/// Failure reported by a sink. The code is the sink's own and means nothing
/// to this library.
#[derive(Debug, Clone, Copy, PartialEq, Eq, Structural)]
pub struct SinkError(pub i32);

/// Why a push into a direct-to-sink wrapper failed.
#[derive(Debug, Clone, Copy, PartialEq, Eq, Structural)]
pub enum WriteError {
    /// The sink failed. What had been transformed and not yet written is lost.
    Sink(SinkError),
    /// The codec reported an error, or could not go on.
    InvalidData,
    /// The input ended before the stream did.
    NeedInput,
    /// The stream ended before the input did.
    TooMuchInput,
    /// More bytes were written than can be counted.
    Overflow,
}

/// A destination for bytes that takes a write whole or fails.
pub trait Sink {
    /// Every byte that the sink has taken in writes that it reported as
    /// done, in order. An implementation that is verified says here what
    /// that is. Left as it is, this is some function of the sink's state of
    /// which nothing else is known.
    open spec fn received(&self) -> Seq<u8> {
        arbitrary::<spec_fn(&Self) -> Seq<u8>>()(self)
    }

    /// What the sink answers, in the state it is in, to a write of `data`.
    /// An implementation that is verified says here what its `write_all`
    /// returns. Left as it is, this is some function of the state and the
    /// data of which nothing else is known.
    open spec fn answer(&self, data: Seq<u8>) -> Result<(), SinkError> {
        arbitrary::<spec_fn(&Self, Seq<u8>) -> Result<(), SinkError>>()(self, data)
    }

    /// Writes all of `data`. After a failure nothing is known of how much
    /// arrived.
    fn write_all(&mut self, data: &[u8]) -> (result: Result<(), SinkError>)
        ensures
            result == old(self).answer(data@),
            result is Ok ==> final(self).received() == old(self).received() + data@,
    ;
}

impl Sink for Vec<u8> {
    /// What the vector holds.
    open spec fn received(&self) -> Seq<u8> {
        self@
    }

    /// Every write is taken.
    open spec fn answer(&self, data: Seq<u8>) -> Result<(), SinkError> {
        Ok(())
    }

    /// Appends `data`. Never fails.
    fn write_all(&mut self, data: &[u8]) -> (result: Result<(), SinkError>)
        ensures
            result is Ok,
    {
        self.extend_from_slice(data);
        assert(self@ =~= old(self)@ + data@);
        Ok(())
    }
}

/// A sink together with a record of the writes that went through
/// [`Output::write_all`]: every byte that was handed to the sink, every byte
/// of the writes that the sink reported as done, and the error of the last
/// write that it refused.
pub struct Output<W: Sink> {
    writer: W,
    offered: Ghost<Seq<u8>>,
    accepted: Ghost<Seq<u8>>,
    refused: Ghost<Option<SinkError>>,
}

impl<W: Sink> Output<W> {
    /// The sink.
    pub closed spec fn spec_writer(&self) -> &W {
        &self.writer
    }

    /// Every byte that was handed to the sink through this output, in
    /// order, whether the sink took it or not.
    pub closed spec fn offered(&self) -> Seq<u8> {
        self.offered@
    }

    /// Every byte that the sink has accepted through this output, in order.
    pub closed spec fn accepted(&self) -> Seq<u8> {
        self.accepted@
    }

    /// The error with which the sink refused a write through this output,
    /// the last one if there were several.
    pub closed spec fn refusal(&self) -> Option<SinkError> {
        self.refused@
    }

    /// Every byte that the sink has received, through this output or not.
    pub open spec fn received(&self) -> Seq<u8> {
        self.spec_writer().received()
    }

    /// Starts a record for `writer`.
    pub fn new(writer: W) -> (output: Self)
        ensures
            *output.writer() == writer,
            output.offered() == Seq::<u8>::empty(),
            output.accepted() == Seq::<u8>::empty(),
            output.refusal() is None,
    {
        Output {
            writer,
            offered: Ghost(Seq::empty()),
            accepted: Ghost(Seq::empty()),
            refused: Ghost(None),
        }
    }

    /// The sink.
    #[verifier::when_used_as_spec(spec_writer)]
    pub fn writer(&self) -> (writer: &W)
        ensures
            writer == self.spec_writer(),
    {
        &self.writer
    }

    /// The sink, for the caller to change. What the caller writes to it is
    /// not on record.
    pub fn writer_mut(&mut self) -> (writer: &mut W)
        ensures
            *writer == *old(self).writer(),
            *final(self).writer() == *final(writer),
            final(self).offered() == old(self).offered(),
            final(self).accepted() == old(self).accepted(),
            final(self).refusal() == old(self).refusal(),
    {
        &mut self.writer
    }

    /// Ends the record and returns the sink.
    pub fn take(self) -> (writer: W)
        ensures
            writer == *self.writer(),
    {
        self.writer
    }

    /// Hands all of `data` to the sink in one write, and returns what the
    /// sink answers. The data is on record as offered whatever the answer,
    /// and as accepted if the sink reports success; the sink has then
    /// received it. An error is on record as the sink's refusal.
    pub fn write_all(&mut self, data: &[u8]) -> (result: Result<(), SinkError>)
        ensures
            result == old(self).writer().answer(data@),
            final(self).offered() == old(self).offered() + data@,
            result is Ok ==> final(self).accepted() == old(self).accepted() + data@,
            result is Ok ==> final(self).received() == old(self).received() + data@,
            result is Err ==> final(self).accepted() == old(self).accepted(),
            final(self).refusal() == match result {
                Ok(_) => old(self).refusal(),
                Err(error) => Some(error),
            },
    {
        let result = self.writer.write_all(data);
        proof {
            self.offered@ = self.offered@ + data@;
            match result {
                Ok(_) => {
                    self.accepted@ = self.accepted@ + data@;
                },
                Err(error) => {
                    self.refused@ = Some(error);
                },
            }
        }
        result
    }
}

} // verus!
