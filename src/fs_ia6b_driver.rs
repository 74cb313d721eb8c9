use crate::wire::{
    channels_of, checksum_high, checksum_low, checksum_of, frame_body, lemma_byte_sum_push,
    lemma_channels_push, lemma_checksum_no_wrap, PAYLOAD_LEN, PROTOCOL_COMMAND, PROTOCOL_LENGTH, PROTOCOL_OVERHEAD,
};
use vstd::prelude::*;

verus! {

/// What can go wrong while reading one byte of a frame.
#[derive(Copy, Clone, Debug)]
pub enum Error<SerialError> {
    /// The byte source failed; its own error is passed on.
    SerialError(SerialError),
    /// No byte is available yet.
    WouldBlock,
    /// The length byte was not the frame length: (got, expected).
    InvalidLength(u8, u8),
    /// The command byte was not the known command: (got, expected).
    InvalidCommand(u8, u8),
    /// The checksum's low byte did not match: (got, expected).
    InvalidChecksumL(u8, u8),
    /// The checksum's high byte did not match: (got, expected).
    InvalidChecksumH(u8, u8),
}

impl<SerialError> From<nb::Error<SerialError>> for Error<SerialError> {
    fn from(e: nb::Error<SerialError>) -> Self {
        match e {
            nb::Error::WouldBlock => Error::WouldBlock,
            nb::Error::Other(e) => Error::SerialError(e),
        }
    }
}

impl<SerialError> vstd::std_specs::convert::FromSpecImpl<nb::Error<SerialError>> for Error<SerialError> {
    open spec fn obeys_from_spec() -> bool {
        true
    }

    open spec fn from_spec(e: nb::Error<SerialError>) -> Self {
        match e {
            nb::Error::WouldBlock => Error::WouldBlock,
            nb::Error::Other(e) => Error::SerialError(e),
        }
    }
}

/// Where the decoder stands within a frame.
pub enum State {
    /// Waiting for the length byte.
    GetLength,
    /// Waiting for the command byte.
    GetCommand,
    /// Collecting channel data.
    GetData,
    /// Waiting for the checksum's low byte.
    GetChksumL,
    /// Waiting for the checksum's high byte.
    GetChksumH,
}

/// The decoder as its contracts see it: where it stands, and the channel data
/// of the frame it is reading (or last read).
pub ghost struct DecoderView {
    pub state: State,
    pub data: Seq<u8>,
}

impl DecoderView {
    /// The view of a decoder that can still be reached by feeding it bytes.
    pub open spec fn wf(self) -> bool {
        &&& self.data.len() <= PAYLOAD_LEN
        &&& self.state is GetData ==> self.data.len() < PAYLOAD_LEN
        &&& (self.state is GetChksumL || self.state is GetChksumH) ==> self.data.len()
            == PAYLOAD_LEN
    }

    /// Ready for the first byte of a frame.
    pub open spec fn is_idle(self) -> bool {
        self.state is GetLength
    }
}

/// The view after the decoder in view `v` takes `byte`.
pub open spec fn next_view(v: DecoderView, byte: u8) -> DecoderView {
    match v.state {
        State::GetLength => if byte == PROTOCOL_LENGTH {
            DecoderView { state: State::GetCommand, data: v.data }
        } else {
            DecoderView { state: State::GetLength, data: v.data }
        },
        State::GetCommand => if byte == PROTOCOL_COMMAND {
            DecoderView { state: State::GetData, data: Seq::empty() }
        } else {
            DecoderView { state: State::GetLength, data: v.data }
        },
        State::GetData => {
            let data = v.data.push(byte);
            if data.len() == PAYLOAD_LEN {
                DecoderView { state: State::GetChksumL, data }
            } else {
                DecoderView { state: State::GetData, data }
            }
        },
        State::GetChksumL => if byte == checksum_low(v.data) {
            DecoderView { state: State::GetChksumH, data: v.data }
        } else {
            DecoderView { state: State::GetLength, data: v.data }
        },
        State::GetChksumH => DecoderView { state: State::GetLength, data: v.data },
    }
}

/// What the decoder in view `v` reports when it takes `byte`: nothing yet,
/// the channel values of a frame just completed, or what was wrong with the byte.
pub open spec fn outcome<E>(v: DecoderView, byte: u8) -> Result<Option<Seq<u16>>, Error<E>> {
    match v.state {
        State::GetLength => if byte == PROTOCOL_LENGTH {
            Ok(None)
        } else {
            Err(Error::InvalidLength(byte, PROTOCOL_LENGTH))
        },
        State::GetCommand => if byte == PROTOCOL_COMMAND {
            Ok(None)
        } else {
            Err(Error::InvalidCommand(byte, PROTOCOL_COMMAND))
        },
        State::GetData => Ok(None),
        State::GetChksumL => if byte == checksum_low(v.data) {
            Ok(None)
        } else {
            Err(Error::InvalidChecksumL(byte, checksum_low(v.data)))
        },
        State::GetChksumH => if byte == checksum_high(v.data) {
            Ok(Some(channels_of(v.data)))
        } else {
            Err(Error::InvalidChecksumH(byte, checksum_high(v.data)))
        },
    }
}

/// The view after the decoder in view `v` takes `bytes`, in order.
pub open spec fn run(v: DecoderView, bytes: Seq<u8>) -> DecoderView
    decreases bytes.len(),
{
    if bytes.len() == 0 {
        v
    } else {
        next_view(run(v, bytes.drop_last()), bytes.last())
    }
}

/// What the decoder in view `v` reports for each of `bytes`, fed in order:
/// report `i` is its outcome on byte `i` after the bytes before it.
pub open spec fn outputs<E>(v: DecoderView, bytes: Seq<u8>) -> Seq<
    Result<Option<Seq<u16>>, Error<E>>,
> {
    Seq::new(bytes.len(), |i: int| outcome::<E>(run(v, bytes.take(i)), bytes[i]))
}

/// A result of the decoder with the channel array seen as a sequence.
pub open spec fn result_view<E>(r: Result<Option<&[u16; 14]>, Error<E>>) -> Result<
    Option<Seq<u16>>,
    Error<E>,
> {
    match r {
        Ok(Some(channels)) => Ok(Some(channels@)),
        Ok(None) => Ok(None),
        Err(e) => Err(e),
    }
}

/// Incremental decoder of the receiver's frames, bound to the byte source it
/// reads from.
pub struct Driver<Serial> {
    /// The byte source.
    pub serial: Serial,
    state: State,
    data_len: u8,
    idx: usize,
    checksum: u16,
    channel_data: [u16; 14],
    data: Ghost<Seq<u8>>,
}

impl<Serial> View for Driver<Serial> {
    type V = DecoderView;

    closed spec fn view(&self) -> DecoderView {
        DecoderView { state: self.state, data: self.data@ }
    }
}

impl<Serial> Driver<Serial> {
    /// The byte source the decoder is bound to.
    pub closed spec fn source(&self) -> Serial {
        self.serial
    }

    /// The fields agree with the view.
    pub closed spec fn wf(&self) -> bool {
        &&& self@.wf()
        &&& self.idx == self.data@.len()
        &&& self.channel_data@ == channels_of(self.data@)
        &&& !(self.state is GetLength) ==> self.data_len == PAYLOAD_LEN
        &&& self.state is GetCommand ==> self.checksum == 0xFFFF - PROTOCOL_LENGTH
        &&& (self.state is GetData || self.state is GetChksumL || self.state is GetChksumH)
            ==> self.checksum == checksum_of(frame_body(self.data@))
    }

    /// A decoder reading from `serial`, waiting for the first byte of a frame.
    pub fn new(serial: Serial) -> (r: Self)
        ensures
            r.wf(),
            r@.is_idle(),
            r@.data == Seq::<u8>::empty(),
            r.source() == serial,
    {
        let r = Driver {
            serial,
            state: State::GetLength,
            data_len: 0,
            idx: 0,
            checksum: 0,
            channel_data: [0; 14],
            data: Ghost(Seq::empty()),
        };
        assert(r.channel_data@ =~= channels_of(Seq::empty()));
        r
    }

    /// Takes one byte of the stream. Returns the channel values when the byte
    /// completes a valid frame, nothing while a frame is still incomplete, and
    /// the protocol error (got, expected) when the byte is not what the frame
    /// needs there; after an error the decoder waits for a new length byte.
    pub fn decode_byte<E>(&mut self, byte: u8) -> (r: Result<Option<&[u16; 14]>, Error<E>>)
        requires
            old(self).wf(),
        ensures
            final(self).wf(),
            final(self).source() == old(self).source(),
            final(self)@ == next_view(old(self)@, byte),
            result_view(r) == outcome::<E>(old(self)@, byte),
    {
        match self.state {
            State::GetLength => {
                if byte == PROTOCOL_LENGTH {
                    self.data_len = byte - PROTOCOL_OVERHEAD;
                    self.checksum = 0xFFFF - (byte as u16);
                    self.state = State::GetCommand;
                } else {
                    self.state = State::GetLength;
                    return Err(Error::InvalidLength(byte, PROTOCOL_LENGTH));
                }
            },
            State::GetCommand => {
                if byte == PROTOCOL_COMMAND {
                    self.idx = 0;
                    self.channel_data = [0; 14];
                    self.data = Ghost(Seq::empty());
                    proof {
                        assert(self.channel_data@ =~= channels_of(Seq::empty()));
                        lemma_checksum_no_wrap(Seq::empty());
                    }
                    self.checksum = self.checksum - byte as u16;
                    self.state = State::GetData;
                } else {
                    self.state = State::GetLength;
                    return Err(Error::InvalidCommand(byte, PROTOCOL_COMMAND));
                }
            },
            State::GetData => {
                let ghost data = self.data@;
                proof {
                    lemma_channels_push(data, byte);
                    lemma_checksum_no_wrap(data);
                    lemma_checksum_no_wrap(data.push(byte));
                    lemma_byte_sum_push(data, byte);
                    let idx = self.idx;
                    assert(idx >> 1 == idx / 2) by (bit_vector);
                    assert((idx & 0x0001) << 3 == 8 * (idx % 2)) by (bit_vector);
                    let c = self.channel_data[(idx / 2) as int];
                    assert(c == 0 ==> c | ((byte as u16) << 0usize) == byte as u16) by (bit_vector);
                    assert(c < 0x100 ==> c | ((byte as u16) << 8usize) == c + 0x100 * (byte as u16))
                        by (bit_vector);
                }
                self.channel_data[self.idx >> 1] = self.channel_data[self.idx >> 1] | ((byte as u16)
                    << ((self.idx & 0x0001) << 3));
                self.idx += 1;
                self.checksum = self.checksum - byte as u16;
                self.data = Ghost(data.push(byte));
                if self.idx == self.data_len as usize {
                    self.state = State::GetChksumL;
                }
            },
            State::GetChksumL => {
                let ghost c = self.checksum;
                assert(c & 0x00FF == c % 0x100) by (bit_vector);
                if self.checksum & 0x00FF == byte as u16 {
                    self.state = State::GetChksumH;
                } else {
                    self.state = State::GetLength;
                    return Err(Error::InvalidChecksumL(byte, (self.checksum & 0x00FF) as u8));
                }
            },
            State::GetChksumH => {
                let ghost c = self.checksum;
                assert((c & 0xFF00 == (byte as u16) << 8) == (c / 0x100 == byte)) by (bit_vector);
                assert(c >> 8 == c / 0x100) by (bit_vector);
                if self.checksum & 0xFF00 == (byte as u16) << 8 {
                    self.state = State::GetLength;
                    return Ok(Some(&self.channel_data));
                } else {
                    self.state = State::GetLength;
                    return Err(Error::InvalidChecksumH(byte, (self.checksum >> 8) as u8));
                }
            },
        }
        Ok(None)
    }

    /// Takes what the byte source returned for one attempt to read a byte. A
    /// byte is decoded as by `decode_byte`; when no byte was available, or the
    /// source failed, the decoder stays as it was and the source's error is
    /// passed on.
    pub fn read<E>(&mut self, incoming: nb::Result<u8, E>) -> (r: Result<
        Option<&[u16; 14]>,
        Error<E>,
    >)
        requires
            old(self).wf(),
        ensures
            final(self).wf(),
            final(self).source() == old(self).source(),
            (match incoming {
                Ok(byte) => {
                    &&& final(self)@ == next_view(old(self)@, byte)
                    &&& result_view(r) == outcome::<E>(old(self)@, byte)
                },
                Err(nb::Error::WouldBlock) => {
                    &&& final(self)@ == old(self)@
                    &&& result_view(r) == Err::<Option<Seq<u16>>, Error<E>>(Error::WouldBlock)
                },
                Err(nb::Error::Other(e)) => {
                    &&& final(self)@ == old(self)@
                    &&& result_view(r) == Err::<Option<Seq<u16>>, Error<E>>(Error::SerialError(e))
                },
            }),
    {
        let byte = match incoming {
            Ok(byte) => byte,
            Err(e) => {
                return Err(Error::from(e));
            },
        };
        self.decode_byte(byte)
    }
}

} // verus!
