//! RESP frames as this library builds them, and their encoding on the wire.

use vstd::prelude::*;
use vstd::utf8::encode_utf8;
use bytes::Bytes;
use crate::buffers::{bytes_contents, bytes_as_slice};
use crate::resp::{all_digits, digits_value};

verus! {

/// The ASCII digits of `n` in base ten, most significant first, without
/// leading zeros ("0" for zero).
pub open spec fn decimal_digits(n: nat) -> Seq<u8>
    decreases n,
{
    if n < 10 {
        seq![(48 + n) as u8]
    } else {
        decimal_digits(n / 10).push((48 + n % 10) as u8)
    }
}

/// The decimal text of `n` is made of digits and reads back as `n`; so
/// distinct numbers have distinct texts.
pub proof fn law_decimal_reads_back(n: nat)
    ensures
        all_digits(decimal_digits(n)),
        digits_value(decimal_digits(n)) == n,
        decimal_digits(n).len() >= 1,
    decreases n,
{
    if n >= 10 {
        law_decimal_reads_back(n / 10);
        let d = decimal_digits(n);
        assert(d.drop_last() =~= decimal_digits(n / 10));
        assert(d.last() == (48 + n % 10) as u8);
        assert(n % 10 < 10);
        assert((n / 10) * 10 + n % 10 == n) by (nonlinear_arith);
        assert(d.last() as int == 48 + n % 10);
        assert(digits_value(d) == digits_value(d.drop_last()) * 10 + (d.last() - 48) as nat);
        assert forall|k: int| 0 <= k < d.len() implies crate::resp::is_ascii_digit(#[trigger] d[k]) by {
            if k < d.len() - 1 {
                assert(d[k] == decimal_digits(n / 10)[k]);
            }
        }
    } else {
        let d = decimal_digits(n);
        assert(d.drop_last() =~= Seq::<u8>::empty());
        assert(d.last() as int == 48 + n);
        assert(digits_value(d) == digits_value(d.drop_last()) * 10 + (d.last() - 48) as nat);
    }
}

/// Distinct numbers are written differently.
pub proof fn law_decimal_injective(a: nat, b: nat)
    requires
        decimal_digits(a) == decimal_digits(b),
    ensures
        a == b,
{
    law_decimal_reads_back(a);
    law_decimal_reads_back(b);
}

/// Appends the decimal digits of `n` to `out`.
fn push_decimal(n: u64, out: &mut Vec<u8>)
    ensures
        final(out)@ == old(out)@ + decimal_digits(n as nat),
    decreases n,
{
    if n < 10 {
        out.push(48u8 + (n as u8));
    } else {
        push_decimal(n / 10, out);
        out.push(48u8 + ((n % 10) as u8));
    }
}

/// The decimal text of `val` as ASCII bytes.
pub fn write_decimal(val: u64) -> (r: Vec<u8>)
    ensures
        r@ == decimal_digits(val as nat),
{
    let mut out: Vec<u8> = Vec::new();
    push_decimal(val, &mut out);
    out
}


/// A frame of the Redis serialization protocol (RESP).
pub enum RespFrame {
    Simple(String),
    Error(String),
    Integer(u64),
    Bulk(Bytes),
    Null,
    Array(Vec<RespFrame>),
}

/// A frame seen as plain values: texts as characters, bulk strings as bytes.
pub enum FrameView {
    Simple(Seq<char>),
    Error(Seq<char>),
    Integer(u64),
    Bulk(Seq<u8>),
    Null,
    Array(Seq<FrameView>),
}

impl RespFrame {
    /// What the frame holds, as plain values.
    pub open spec fn view(&self) -> FrameView
        decreases self,
    {
        match self {
            RespFrame::Simple(s) => FrameView::Simple(s@),
            RespFrame::Error(s) => FrameView::Error(s@),
            RespFrame::Integer(n) => FrameView::Integer(*n),
            RespFrame::Bulk(b) => FrameView::Bulk(bytes_contents(*b)),
            RespFrame::Null => FrameView::Null,
            RespFrame::Array(parts) => FrameView::Array(
                Seq::new(
                    parts@.len(),
                    |i: int|
                        if 0 <= i < parts@.len() {
                            parts@[i].view()
                        } else {
                            FrameView::Null
                        },
                ),
            ),
        }
    }
}

/// Why a frame could not be written.
#[derive(Debug, PartialEq, Eq)]
pub enum WriteError {
    /// Array frames are not written by this server.
    ArrayUnsupported,
}

/// The line terminator of RESP.
pub open spec fn crlf() -> Seq<u8> {
    seq![13u8, 10u8]
}

/// The bytes that encode `f` on the wire, or `None` for an array frame,
/// which this server does not write.
pub open spec fn frame_encoding(f: RespFrame) -> Option<Seq<u8>> {
    match f {
        RespFrame::Simple(s) => Some(seq![43u8] + encode_utf8(s@) + crlf()),
        RespFrame::Error(s) => Some(seq![45u8] + encode_utf8(s@) + crlf()),
        RespFrame::Integer(v) => Some(seq![58u8] + decimal_digits(v as nat) + crlf()),
        RespFrame::Null => Some(seq![36u8, 45u8, 49u8] + crlf()),
        RespFrame::Bulk(b) => Some(
            seq![36u8] + decimal_digits(bytes_contents(b).len()) + crlf() + bytes_contents(b)
                + crlf(),
        ),
        RespFrame::Array(_) => None,
    }
}

/// A bulk frame goes out as `$`, a decimal header that reads back as the
/// payload's exact byte count, a line terminator, the payload, and a line
/// terminator: a client that reads the header reads the whole payload.
pub proof fn law_bulk_header_counts_the_payload(b: Bytes)
    ensures
        frame_encoding(RespFrame::Bulk(b)) matches Some(e) && exists|h: Seq<u8>|
            #![trigger all_digits(h)]
            all_digits(h) && h.len() >= 1 && digits_value(h) == bytes_contents(b).len() && e == seq![36u8] + h + crlf()
                + bytes_contents(b) + crlf(),
{
    let h = decimal_digits(bytes_contents(b).len());
    law_decimal_reads_back(bytes_contents(b).len());
    assert(all_digits(h));
}

/// An integer frame goes out as `:`, a decimal text that reads back as the
/// integer, and a line terminator.
pub proof fn law_integer_text_reads_back(v: u64)
    ensures
        frame_encoding(RespFrame::Integer(v)) matches Some(e) && exists|h: Seq<u8>|
            #![trigger all_digits(h)]
            all_digits(h) && h.len() >= 1 && digits_value(h) == v && e == seq![58u8] + h + crlf(),
{
    let h = decimal_digits(v as nat);
    law_decimal_reads_back(v as nat);
    assert(all_digits(h));
}

fn push_crlf(out: &mut Vec<u8>)
    ensures
        final(out)@ == old(out)@ + crlf(),
{
    out.push(13u8);
    out.push(10u8);
}

fn push_slice(out: &mut Vec<u8>, s: &[u8])
    ensures
        final(out)@ == old(out)@ + s@,
{
    out.extend_from_slice(s);
    assert(final(out)@ =~= old(out)@ + s@);
}

/// Encodes `frame` as it is sent to a client.
pub fn encode_frame(frame: &RespFrame) -> (r: Result<Vec<u8>, WriteError>)
    ensures
        match frame_encoding(*frame) {
            Some(bytes) => r matches Ok(v) && v@ == bytes,
            None => r == Err::<Vec<u8>, WriteError>(WriteError::ArrayUnsupported),
        },
{
    let mut out: Vec<u8> = Vec::new();
    match frame {
        RespFrame::Simple(val) => {
            out.push(43u8);
            push_slice(&mut out, val.as_str().as_bytes());
            push_crlf(&mut out);
        },
        RespFrame::Error(val) => {
            out.push(45u8);
            push_slice(&mut out, val.as_str().as_bytes());
            push_crlf(&mut out);
        },
        RespFrame::Integer(val) => {
            out.push(58u8);
            push_decimal(*val, &mut out);
            push_crlf(&mut out);
        },
        RespFrame::Null => {
            out.push(36u8);
            out.push(45u8);
            out.push(49u8);
            push_crlf(&mut out);
        },
        RespFrame::Bulk(val) => {
            let data = bytes_as_slice(val);
            let len = data.len();
            out.push(36u8);
            push_decimal(len as u64, &mut out);
            push_crlf(&mut out);
            push_slice(&mut out, data);
            push_crlf(&mut out);
        },
        RespFrame::Array(_) => {
            return Err(WriteError::ArrayUnsupported);
        },
    }
    assert(out@ =~= frame_encoding(*frame).unwrap());
    Ok(out)
}

} // verus!
