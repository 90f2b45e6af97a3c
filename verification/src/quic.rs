//! The QUIC transport: messages behind their length on a byte stream, and the decisions
//! around a handshake.

use vstd::prelude::*;
use vstd::string::*;

use crate::address;
use crate::error::{Error, ErrorView, Result};
use crate::message;
use crate::message::{AuthResponse, OpenStreamAck, STATUS_ERR, STATUS_OK};
use crate::outside;
use crate::text;
use crate::varint;
use crate::wire;

verus! {

/// A transport failure, described by its own text.
pub fn to_io_error<T: core::fmt::Display>(e: T) -> (r: Error)
    ensures
        r matches Error::Io(s) && to_string_from_display_ensures(&e, s),
{
    Error::Io(e.to_string())
}

/// A message behind its length, as it goes onto a stream.
pub fn len_prefixed(body: &[u8]) -> (v: Vec<u8>)
    ensures
        v@ == wire::prefixed(body@),
{
    let mut v: Vec<u8> = Vec::new();
    wire::put_prefixed(&mut v, body);
    assert(v@ =~= wire::prefixed(body@));
    v
}

/// What the reader of a message has to do next.
#[derive(Debug, Clone, Copy, PartialEq, Eq)]
pub enum ReadStep {
    /// Read exactly this many more bytes.
    Read(u64),
    /// The message is complete; its body starts here.
    Done(usize),
}

/// What the reader has to do next once it has read `b`: first the length, the first byte of
/// which says how long it is, and then as many bytes as it says.
pub open spec fn next_read_spec(b: Seq<u8>) -> (bool, int) {
    if b.len() == 0 {
        (false, 1)
    } else if b.len() < varint::varint_total(b[0]) {
        (false, varint::varint_total(b[0]) - b.len())
    } else {
        match varint::parse_varint(b) {
            Some((len, used)) => if b.len() < used + len {
                (false, used + len - b.len())
            } else {
                (true, used as int)
            },
            None => (false, 0),
        }
    }
}

/// What the reader of a message has to do next once it has read `buf`.
pub fn next_read(buf: &[u8]) -> (r: ReadStep)
    ensures
        next_read_spec(buf@) == (match r {
            ReadStep::Read(n) => (false, n as int),
            ReadStep::Done(start) => (true, start as int),
        }),
{
    if buf.len() == 0 {
        return ReadStep::Read(1);
    }
    let total: usize = varint::varint_total_len(buf[0]);
    if buf.len() < total {
        return ReadStep::Read((total - buf.len()) as u64);
    }
    proof {
        varint::law_parse_varint_bounds(buf@);
    }
    match varint::decode_varint(buf) {
        Ok((len, used)) => {
            let have: u64 = (buf.len() - used) as u64;
            if have < len {
                ReadStep::Read(len - have)
            } else {
                ReadStep::Done(used)
            }
        },
        Err(_) => ReadStep::Read(0),
    }
}

/// A reader that follows `next_read` takes exactly the message that was written and not a
/// byte of what follows: as long as it has only a part of it, it asks for more, but never
/// for more than there is.
pub proof fn law_reader_stays_in_message(body: Seq<u8>, k: int)
    requires
        wire::can_prefix(body),
        0 <= k < wire::prefixed(body).len(),
    ensures
        ({
            let (done, n) = next_read_spec(wire::prefixed(body).take(k));
            !done && 0 < n <= wire::prefixed(body).len() - k
        }),
{
    let whole = wire::prefixed(body);
    let b = whole.take(k);
    let v = body.len() as u64;
    varint::lemma_varint_bytes_len(v);
    varint::law_varint_roundtrip(v, body);
    if k > 0 {
        assert(b[0] == whole[0]);
        if k >= varint::varint_len(v) {
            varint::law_varint_roundtrip(v, b.skip(varint::varint_len(v) as int));
            assert(b =~= varint::varint_bytes(v) + b.skip(varint::varint_len(v) as int));
        }
    }
}

/// A reader that has all of the message knows it, and finds the body where it was put.
pub proof fn law_reader_finds_body(body: Seq<u8>)
    requires
        wire::can_prefix(body),
    ensures
        ({
            let (done, start) = next_read_spec(wire::prefixed(body));
            done && wire::prefixed(body).skip(start) == body
        }),
{
    let v = body.len() as u64;
    varint::lemma_varint_bytes_len(v);
    varint::law_varint_roundtrip(v, body);
    assert(wire::prefixed(body).skip(varint::varint_len(v) as int) =~= body);
}

/// What the reader of a message does next, for whatever it has read: one byte first, then the rest
/// of the length, then as many bytes as the length says and are not there yet; once they are, the
/// body starts behind the length.
pub proof fn law_reader_goes_by_length(b: Seq<u8>)
    ensures
        b.len() == 0 ==> next_read_spec(b) == (false, 1int),
        b.len() > 0 && varint::parse_varint(b) is None ==> !next_read_spec(b).0 && b.len()
            + next_read_spec(b).1 == (if b[0] < 0x80 {
            2int
        } else if b[0] < 0xc0 {
            4
        } else {
            8
        }),
        varint::parse_varint(b) matches Some((len, used)) ==> next_read_spec(b).0 == (b.len()
            >= used + len),
        varint::parse_varint(b) matches Some((len, used)) ==> (if b.len() >= used + len {
            next_read_spec(b).1 == used
        } else {
            b.len() + next_read_spec(b).1 == used + len
        }),
{
}

/// A coded message is its code in decimal digits, in brackets, and the message behind them.
pub proof fn law_coded_text(code: u8, msg: Seq<char>)
    ensures
        coded_text(code, msg) == seq!['[', 'c', 'o', 'd', 'e', ' '] + text::decimal_text(
            code as nat,
        ) + seq![']', ' '] + msg,
{
    reveal_strlit("[code ");
    reveal_strlit("] ");
    assert("[code "@ =~= seq!['[', 'c', 'o', 'd', 'e', ' ']);
    assert("] "@ =~= seq![']', ' ']);
}

/// Whether the server's answer establishes the tunnel; an error status is an error with the
/// server's message.
pub fn check_auth(resp: &AuthResponse) -> (r: Result<()>)
    ensures
        resp.status != STATUS_ERR ==> r is Ok,
        resp.status == STATUS_ERR ==> (r matches Err(e) && e@ == ErrorView::Message(
            address::received_text(resp.message@),
        )),
{
    if resp.status == STATUS_ERR {
        Err(Error::Message(outside::from_utf8_lossy(resp.message.as_slice())))
    } else {
        Ok(())
    }
}

/// Whether a stream was opened; an error status is an error with the peer's message.
pub fn check_open(ack: &OpenStreamAck) -> (r: Result<()>)
    ensures
        ack.status != STATUS_ERR ==> r is Ok,
        ack.status == STATUS_ERR ==> (r matches Err(e) && e@ == ErrorView::Message(
            address::received_text(ack.message@),
        )),
{
    if ack.status == STATUS_ERR {
        Err(Error::Message(outside::from_utf8_lossy(ack.message.as_slice())))
    } else {
        Ok(())
    }
}

/// A message with its machine-readable code in front.
pub open spec fn coded_text(code: u8, msg: Seq<char>) -> Seq<char> {
    "[code "@ + text::decimal_text(code as nat) + "] "@ + msg
}

/// Puts a machine-readable code in front of a message.
pub fn coded(code: u8, msg: &str) -> (s: String)
    ensures
        s@ == coded_text(code, msg@),
{
    let mut s = String::new();
    text::put_str(&mut s, "[code ");
    text::put_decimal(&mut s, code as u64);
    text::put_str(&mut s, "] ");
    text::put_str(&mut s, msg);
    assert(s@ =~= coded_text(code, msg@));
    s
}

/// As `check_open`, with the machine-readable code in front of the message.
pub fn check_open_coded(ack: &OpenStreamAck) -> (r: Result<()>)
    ensures
        ack.status != STATUS_ERR ==> r is Ok,
        ack.status == STATUS_ERR ==> (r matches Err(e) && e@ == ErrorView::Message(
            coded_text(ack.error_code, address::received_text(ack.message@)),
        )),
{
    if ack.status == STATUS_ERR {
        let msg = outside::from_utf8_lossy(ack.message.as_slice());
        Err(Error::Message(coded(ack.error_code, msg.as_str())))
    } else {
        Ok(())
    }
}

/// The answer to an authentication as it goes onto the stream, and whether the tunnel stands
/// then; if not, the connection has to be closed.
pub fn handshake_reply(resp: &AuthResponse) -> (r: (Vec<u8>, bool))
    ensures
        r.0@ == wire::prefixed(message::auth_response_bytes(resp@)),
        r.1 == (resp.status == STATUS_OK),
{
    let mut buf: Vec<u8> = Vec::new();
    resp.encode(&mut buf);
    assert(buf@ =~= message::auth_response_bytes(resp@));
    (len_prefixed(buf.as_slice()), resp.status == STATUS_OK)
}

} // verus!
