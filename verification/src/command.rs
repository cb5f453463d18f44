//! Client requests, as decoded from frames by `mini_redis`.

use vstd::prelude::*;
use bytes::Bytes;
use crate::buffers::bytes_contents;
use crate::frame::{FrameView, RespFrame};
use vstd::utf8::encode_utf8;
use mini_redis::Command as RedisCommand;

verus! {

/// A request of a client.
pub enum Command {
    /// `GET key`
    GetKey { key: String },
    /// `SET key value`
    SetKey { key: String, value: Bytes },
    /// A request this server does not carry out, described for the operator.
    Unsupported { description: String },
}

/// A request seen as plain values.
pub enum CommandView {
    GetKey(Seq<char>),
    SetKey(Seq<char>, Seq<u8>),
    Unsupported(Seq<char>),
}

impl Command {
    /// What the request holds, as plain values.
    pub open spec fn view(&self) -> CommandView {
        match self {
            Command::GetKey { key } => CommandView::GetKey(key@),
            Command::SetKey { key, value } => CommandView::SetKey(key@, bytes_contents(*value)),
            Command::Unsupported { description } => CommandView::Unsupported(description@),
        }
    }
}

/// A frame that does not decode to a request.
#[derive(Debug, PartialEq, Eq, Clone, Copy)]
pub struct MalformedCommand;

/// A decoding result seen as plain values: `None` for a frame that is no
/// request.
pub open spec fn decoded_view(r: Result<Command, MalformedCommand>) -> Option<CommandView> {
    match r {
        Ok(c) => Some(c.view()),
        Err(_) => None,
    }
}

/// `name` spells the lower-case ASCII word `word`, each letter in either case.
pub open spec fn ascii_caseless_eq(name: Seq<u8>, word: Seq<u8>) -> bool {
    &&& name.len() == word.len()
    &&& forall|i: int|
        0 <= i < name.len() ==> (#[trigger] name[i] == word[i] || name[i] + 32 == word[i] && 97 <= word[i] <= 122)
}

/// `get` in ASCII.
pub open spec fn word_get() -> Seq<u8> {
    seq![103u8, 101u8, 116u8]
}

/// `set` in ASCII.
pub open spec fn word_set() -> Seq<u8> {
    seq![115u8, 101u8, 116u8]
}

/// The request frame `[name, key]` of bulk strings, the key in UTF-8.
pub open spec fn request_frame2(name: Seq<u8>, key: Seq<char>) -> FrameView {
    FrameView::Array(seq![FrameView::Bulk(name), FrameView::Bulk(encode_utf8(key))])
}

/// The request frame `[name, key, value]` of bulk strings, the key in UTF-8.
pub open spec fn request_frame3(name: Seq<u8>, key: Seq<char>, value: Seq<u8>) -> FrameView {
    FrameView::Array(seq![FrameView::Bulk(name), FrameView::Bulk(encode_utf8(key)), FrameView::Bulk(value)])
}

/// What `mini_redis::Command::from_frame` decodes a frame to, the frame and
/// the request seen as plain values; `None` where it reports an error.
pub uninterp spec fn resp_decode(frame: FrameView) -> Option<CommandView>;

/// Decodes a request with `mini_redis::Command::from_frame`, the frame first
/// carried over into the frame type of `mini_redis`.
///
/// `GET` and `SET` keep their key (and value); each other request that
/// `mini_redis` knows is described by its debug text; a frame that is no
/// request gives `MalformedCommand`. The outcome is named by `resp_decode`.
/// Of the two requests this server carries out the source shows: the name,
/// read as UTF-8 and lower-cased, picks `get` or `set`; the key is read as
/// UTF-8 and kept as it is; a `SET` value is kept byte for byte; a `SET`
/// without options decodes, as does a `GET` with nothing after its key.
#[verifier::external_body]
pub(crate) fn command_from_frame(frame: RespFrame) -> (r: Result<Command, MalformedCommand>)
    ensures
        decoded_view(r) == resp_decode(frame.view()),
        forall|name: Seq<u8>, key: Seq<char>|
            ascii_caseless_eq(name, word_get()) && frame.view() == #[trigger] request_frame2(name, key)
                ==> decoded_view(r) == Some(CommandView::GetKey(key)),
        forall|name: Seq<u8>, key: Seq<char>, value: Seq<u8>|
            ascii_caseless_eq(name, word_set()) && frame.view() == #[trigger] request_frame3(name, key, value)
                ==> decoded_view(r) == Some(CommandView::SetKey(key, value)),
{
    match RedisCommand::from_frame(frame.into()) {
        Ok(RedisCommand::Get(c)) => Ok(Command::GetKey { key: c.key().to_string() }),
        Ok(RedisCommand::Set(c)) => Ok(Command::SetKey { key: c.key().to_string(), value: c.value().clone() }),
        Ok(RedisCommand::Publish(c)) => Ok(Command::Unsupported { description: format!("{c:?}") }),
        Ok(RedisCommand::Subscribe(c)) => Ok(Command::Unsupported { description: format!("{c:?}") }),
        Ok(RedisCommand::Unsubscribe(c)) => Ok(Command::Unsupported { description: format!("{c:?}") }),
        Ok(RedisCommand::Unknown(c)) => Ok(Command::Unsupported { description: format!("{c:?}") }),
        Err(_) => Err(MalformedCommand),
    }
}

} // verus!
