//! The pkt-line framer: wraps byte payloads in the length-prefixed packets
//! of the Git wire protocol, splitting oversized payloads across packets.

use vstd::prelude::*;

use crate::error::Error;
use crate::util::append_bytes;
use crate::low_level::{
    spec_entries_sizes_ok, spec_hex_digit, spec_pack_file_bytes, PackFile,
};

verus! {

use vstd::string::StringSliceAdditionalSpecFns;

/// The maximum length of a pkt-line's data component is 65516 bytes.
/// Implementations must not send a pkt-line whose total length exceeds
/// 65520 (65516 bytes of payload plus 4 bytes of length prefix).
pub const MAX_DATA_LEN: usize = 65516;

/// The four lower-case hexadecimal digits of a packet length, zero-padded.
pub open spec fn spec_hex4(n: int) -> Seq<u8>
    recommends
        0 <= n < 0x10000,
{
    seq![
        spec_hex_digit(n / 0x1000 % 16),
        spec_hex_digit(n / 0x100 % 16),
        spec_hex_digit(n / 0x10 % 16),
        spec_hex_digit(n % 16),
    ]
}

/// The lower-case hexadecimal digit for a value below sixteen.
fn hex_digit(n: u8) -> (r: u8)
    requires
        n < 16,
    ensures
        r == spec_hex_digit(n as int),
{
    if n < 10 {
        48 + n
    } else {
        87 + n
    }
}

/// Appends the four-digit hexadecimal length prefix of a packet.
fn push_hex4(out: &mut Vec<u8>, n: u16)
    ensures
        final(out)@ == old(out)@ + spec_hex4(n as int),
{
    out.push(hex_digit((n / 0x1000 % 16) as u8));
    out.push(hex_digit((n / 0x100 % 16) as u8));
    out.push(hex_digit((n / 0x10 % 16) as u8));
    out.push(hex_digit((n % 16) as u8));
    proof {
        assert(final(out)@ =~= old(out)@ + spec_hex4(n as int));
    }
}

/// The frames that a `Data` payload occupies: chunks of at most 65516
/// bytes, each preceded by its own length prefix; an empty payload emits
/// no frame at all.
pub open spec fn spec_data_frames(data: Seq<u8>) -> Seq<u8>
    decreases data.len(),
{
    if data.len() == 0 {
        Seq::empty()
    } else if data.len() <= 65516 {
        spec_hex4(data.len() + 4 as int) + data
    } else {
        spec_hex4(65520) + data.take(65516) + spec_data_frames(data.skip(65516))
    }
}

/// The frames that a sideband payload occupies: chunks of at most 65515
/// bytes, each preceded by its length prefix and a one-byte channel tag;
/// an empty payload emits no frame at all.
pub open spec fn spec_sideband_frames(channel: u8, data: Seq<u8>) -> Seq<u8>
    decreases data.len(),
{
    if data.len() == 0 {
        Seq::empty()
    } else if data.len() <= 65515 {
        spec_hex4(data.len() + 5 as int) + seq![channel] + data
    } else {
        spec_hex4(65520) + seq![channel] + data.take(65515) + spec_sideband_frames(
            channel,
            data.skip(65515),
        )
    }
}

/// A wrapper containing every possible type of message that can be sent to
/// a Git client.
pub enum PktLine<'a> {
    /// General data sent to a client, generally a UTF-8 encoded string.
    Data(&'a [u8]),
    /// Similar to a data packet, but used during packfile sending to
    /// indicate this packet is a block of data by prefixing each chunk
    /// with a byte containing the `u8` `1`.
    SidebandData(PackFile<'a>),
    /// Similar to a data packet, but used during packfile sending to
    /// indicate this packet is a status message by prefixing each chunk
    /// with a byte containing the `u8` `2`.
    SidebandMsg(&'a [u8]),
    /// Indicates the end of a response.
    Flush,
    /// Separates sections of a response.
    Delimiter,
    /// Indicates the end of the response, allowing the client to send
    /// another request.
    ResponseEnd,
}

impl PktLine<'_> {
    /// Appends the pkt-line frames of this unit to the buffer. Every frame
    /// is a four-digit lower-case hexadecimal total length followed by the
    /// payload; control markers are the bare frames `0000`, `0001` and
    /// `0002`. Only serializing the packfile of a `SidebandData` unit can
    /// fail, and then the buffer is left unchanged.
    pub fn encode_to(&self, buf: &mut Vec<u8>) -> (r: Result<(), Error>)
        requires
            self matches PktLine::SidebandData(p) ==> spec_entries_sizes_ok(p.spec_entries()),
        ensures
            self matches PktLine::Data(d) ==> r == Ok::<(), Error>(()) && final(buf)@ == old(buf)@
                + spec_data_frames(d@),
            self matches PktLine::SidebandMsg(m) ==> r == Ok::<(), Error>(()) && final(buf)@
                == old(buf)@ + spec_sideband_frames(2, m@),
            self matches PktLine::SidebandData(p) ==> {
                &&& (r matches Ok(v) ==> p.spec_entries().len() <= u32::MAX && final(buf)@ == old(
                    buf,
                )@ + spec_sideband_frames(1, spec_pack_file_bytes(p.spec_entries())))
                &&& (r matches Err(e) ==> final(buf)@ == old(buf)@ && (e
                    == Error::EntriesExceedsU32(p.spec_entries().len() as usize) || e
                    == Error::CompressWrite || e == Error::Compress))
                &&& (p.spec_entries().len() > u32::MAX <==> r == Err::<(), Error>(
                    Error::EntriesExceedsU32(p.spec_entries().len() as usize),
                ))
            },
            self matches PktLine::Flush ==> r == Ok::<(), Error>(()) && final(buf)@ == old(buf)@
                + "0000".spec_bytes(),
            self matches PktLine::Delimiter ==> r == Ok::<(), Error>(()) && final(buf)@ == old(
                buf,
            )@ + "0001".spec_bytes(),
            self matches PktLine::ResponseEnd ==> r == Ok::<(), Error>(()) && final(buf)@ == old(
                buf,
            )@ + "0002".spec_bytes(),
    {
        match self {
            Self::Data(data) => {
                push_data_frames(buf, data);
            },
            Self::SidebandData(packfile) => {
                let mut data_buf: Vec<u8> = Vec::new();
                if let Err(e) = packfile.encode_to(&mut data_buf) {
                    return Err(e);
                }
                if data_buf.len() <= MAX_DATA_LEN - 1 - 5 {
                    push_hex4(buf, (data_buf.len() + 5) as u16);
                    buf.push(1);  // sideband, 1 = data
                    append_bytes(buf, data_buf.as_slice());
                    proof {
                        assert(final(buf)@ =~= old(buf)@ + spec_sideband_frames(
                            1,
                            spec_pack_file_bytes(packfile.spec_entries()),
                        ));
                    }
                } else {
                    push_sideband_frames(buf, 1, data_buf.as_slice());
                }
            },
            Self::SidebandMsg(msg) => {
                push_sideband_frames(buf, 2, msg);
            },
            Self::Flush => append_bytes(buf, "0000".as_bytes()),
            Self::Delimiter => append_bytes(buf, "0001".as_bytes()),
            Self::ResponseEnd => append_bytes(buf, "0002".as_bytes()),
        }
        Ok(())
    }
}

/// Appends a payload as plain pkt-line frames, chunked at the payload
/// ceiling of 65516 bytes.
fn push_data_frames(buf: &mut Vec<u8>, data: &[u8])
    ensures
        final(buf)@ == old(buf)@ + spec_data_frames(data@),
{
    proof {
        assert(data@.skip(0) =~= data@);
    }
    let mut i: usize = 0;
    while i < data.len()
        invariant
            i <= data@.len(),
            buf@ + spec_data_frames(data@.skip(i as int)) == old(buf)@ + spec_data_frames(data@),
        decreases data@.len() - i,
    {
        let remaining = data.len() - i;
        if remaining <= MAX_DATA_LEN {
            push_hex4(buf, (remaining + 4) as u16);
            append_bytes(buf, &data[i..data.len()]);
            proof {
                assert(buf@ =~= old(buf)@ + spec_data_frames(data@));
            }
            i = data.len();
        } else {
            push_hex4(buf, (MAX_DATA_LEN + 4) as u16);
            append_bytes(buf, &data[i..i + MAX_DATA_LEN]);
            proof {
                assert(data@.skip(i as int).take(65516) =~= data@.subrange(
                    i as int,
                    i + 65516 as int,
                ));
                assert(data@.skip(i as int).skip(65516) =~= data@.skip(i + 65516 as int));
                assert(buf@ + spec_data_frames(data@.skip(i + 65516 as int)) =~= old(buf)@
                    + spec_data_frames(data@));
            }
            i += MAX_DATA_LEN;
        }
    }
    proof {
        assert(data@.skip(data@.len() as int) =~= Seq::<u8>::empty());
        assert(final(buf)@ =~= old(buf)@ + spec_data_frames(data@));
    }
}

/// Appends a payload as sideband frames on the given channel, chunked at
/// the reduced payload ceiling of 65515 bytes to leave room for the
/// channel tag.
fn push_sideband_frames(buf: &mut Vec<u8>, channel: u8, data: &[u8])
    ensures
        final(buf)@ == old(buf)@ + spec_sideband_frames(channel, data@),
{
    proof {
        assert(data@.skip(0) =~= data@);
    }
    let mut i: usize = 0;
    while i < data.len()
        invariant
            i <= data@.len(),
            buf@ + spec_sideband_frames(channel, data@.skip(i as int)) == old(buf)@
                + spec_sideband_frames(channel, data@),
        decreases data@.len() - i,
    {
        let remaining = data.len() - i;
        if remaining <= MAX_DATA_LEN - 1 {
            push_hex4(buf, (remaining + 5) as u16);
            buf.push(channel);
            append_bytes(buf, &data[i..data.len()]);
            proof {
                assert(buf@ =~= old(buf)@ + spec_sideband_frames(channel, data@));
            }
            i = data.len();
        } else {
            push_hex4(buf, (MAX_DATA_LEN + 4) as u16);
            buf.push(channel);
            append_bytes(buf, &data[i..i + (MAX_DATA_LEN - 1)]);
            proof {
                assert(data@.skip(i as int).take(65515) =~= data@.subrange(
                    i as int,
                    i + 65515 as int,
                ));
                assert(data@.skip(i as int).skip(65515) =~= data@.skip(i + 65515 as int));
                assert(buf@ + spec_sideband_frames(channel, data@.skip(i + 65515 as int)) =~= old(
                    buf,
                )@ + spec_sideband_frames(channel, data@));
            }
            i += MAX_DATA_LEN - 1;
        }
    }
    proof {
        assert(data@.skip(data@.len() as int) =~= Seq::<u8>::empty());
        assert(final(buf)@ =~= old(buf)@ + spec_sideband_frames(channel, data@));
    }
}

impl<'a> From<&'a str> for PktLine<'a> {
    fn from(val: &'a str) -> (r: PktLine<'a>) {
        let b = val.as_bytes();
        proof {
            assert(b@ == val.spec_bytes());
            assert(exists|s: &'a [u8]| s@ == val.spec_bytes());
            assert((choose|s: &'a [u8]| s@ == val.spec_bytes()) == b);
        }
        PktLine::Data(b)
    }
}

/// In specifications a byte slice is determined by the bytes it views, so
/// the slice chosen here is the one that `from` returns: the UTF-8 bytes
/// of the string.
impl<'a> vstd::std_specs::convert::FromSpecImpl<&'a str> for PktLine<'a> {
    open spec fn obeys_from_spec() -> bool {
        true
    }

    open spec fn from_spec(v: &'a str) -> Self {
        PktLine::Data(choose|s: &'a [u8]| s@ == v.spec_bytes())
    }
}

} // verus!
