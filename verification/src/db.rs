//! The key/value store that `GET` and `SET` work on, and how the server
//! answers a request.

use vstd::prelude::*;
use bytes::Bytes;
use crate::buffers::{bytes_clone, bytes_contents};
use crate::command::{
    Command, CommandView, MalformedCommand, ascii_caseless_eq, command_from_frame, decoded_view,
    request_frame2, request_frame3, resp_decode, word_get, word_set,
};
use crate::frame::RespFrame;

verus! {

/// The key/value pairs of a store, in the order they were first set.
pub open spec fn entries_map(s: Seq<(String, Bytes)>) -> Map<Seq<char>, Seq<u8>>
    decreases s.len(),
{
    if s.len() == 0 {
        Map::empty()
    } else {
        entries_map(s.drop_last()).insert(s.last().0@, bytes_contents(s.last().1))
    }
}

/// No key occurs twice.
pub open spec fn distinct_keys(s: Seq<(String, Bytes)>) -> bool {
    forall|i: int, j: int| 0 <= i < j < s.len() ==> (#[trigger] s[i]).0@ != (#[trigger] s[j]).0@
}

proof fn lemma_entries_map_dom(s: Seq<(String, Bytes)>, k: Seq<char>)
    ensures
        entries_map(s).dom().contains(k) <==> exists|i: int| 0 <= i < s.len() && (#[trigger] s[i]).0@ == k,
    decreases s.len(),
{
    if s.len() > 0 {
        lemma_entries_map_dom(s.drop_last(), k);
        if exists|i: int| 0 <= i < s.len() && (#[trigger] s[i]).0@ == k {
            let i = choose|i: int| 0 <= i < s.len() && (#[trigger] s[i]).0@ == k;
            if i < s.len() - 1 {
                assert(s.drop_last()[i] == s[i]);
            }
        }
        if exists|i: int| 0 <= i < s.drop_last().len() && (#[trigger] s.drop_last()[i]).0@ == k {
            let i = choose|i: int| 0 <= i < s.drop_last().len() && (#[trigger] s.drop_last()[i]).0@ == k;
            assert(s[i] == s.drop_last()[i]);
        }
    }
}

proof fn lemma_entries_map_value(s: Seq<(String, Bytes)>, i: int)
    requires
        distinct_keys(s),
        0 <= i < s.len(),
    ensures
        entries_map(s).dom().contains(s[i].0@),
        entries_map(s)[s[i].0@] == bytes_contents(s[i].1),
    decreases s.len(),
{
    if i < s.len() - 1 {
        assert(s.drop_last()[i] == s[i]);
        assert(distinct_keys(s.drop_last()));
        lemma_entries_map_value(s.drop_last(), i);
        assert(s[i].0@ != s[s.len() - 1].0@);
    }
}

proof fn lemma_entries_map_update(s: Seq<(String, Bytes)>, i: int, e: (String, Bytes))
    requires
        distinct_keys(s),
        0 <= i < s.len(),
        e.0@ == s[i].0@,
    ensures
        distinct_keys(s.update(i, e)),
        entries_map(s.update(i, e)) == entries_map(s).insert(e.0@, bytes_contents(e.1)),
    decreases s.len(),
{
    let t = s.update(i, e);
    assert forall|a: int, b: int| 0 <= a < b < t.len() implies (#[trigger] t[a]).0@ != (#[trigger] t[b]).0@ by {
        assert(s[a].0@ != s[b].0@);
    }
    if i == s.len() - 1 {
        assert(t.drop_last() =~= s.drop_last());
        assert(entries_map(t) =~= entries_map(s).insert(e.0@, bytes_contents(e.1)));
    } else {
        assert(t.drop_last() =~= s.drop_last().update(i, e));
        assert(distinct_keys(s.drop_last()));
        assert(s.drop_last()[i] == s[i]);
        lemma_entries_map_update(s.drop_last(), i, e);
        assert(s[i].0@ != s[s.len() - 1].0@);
        assert(entries_map(t) =~= entries_map(s).insert(e.0@, bytes_contents(e.1)));
    }
}

/// `reply` is the answer to `SET`.
pub open spec fn is_ok_reply(reply: RespFrame) -> bool {
    reply matches RespFrame::Simple(s) && s@ == "OK"@
}

/// `reply` is the answer to `GET key` on a store with bindings `m`: the
/// bound bytes as a bulk string, or null when `key` is unbound.
pub open spec fn is_get_reply(m: Map<Seq<char>, Seq<u8>>, key: Seq<char>, reply: RespFrame) -> bool {
    if m.dom().contains(key) {
        reply matches RespFrame::Bulk(b) && bytes_contents(b) == m[key]
    } else {
        reply is Null
    }
}

/// `r` answers the request `decoded` (seen as plain values; `None` for a
/// frame that is no request) on a store whose bindings go from `before` to
/// `after`.
pub open spec fn answered(
    before: Map<Seq<char>, Seq<u8>>,
    decoded: Option<CommandView>,
    after: Map<Seq<char>, Seq<u8>>,
    r: Result<RespFrame, ProcessError>,
) -> bool {
    match decoded {
        None => after == before && r matches Err(ProcessError::Malformed),
        Some(CommandView::Unsupported(description)) => {
            &&& after == before
            &&& r matches Err(ProcessError::Unsupported { description: d })
            &&& d@ == description
        },
        Some(CommandView::GetKey(key)) => {
            &&& after == before
            &&& r matches Ok(reply)
            &&& is_get_reply(before, key, reply)
        },
        Some(CommandView::SetKey(key, value)) => {
            &&& after == before.insert(key, value)
            &&& r matches Ok(reply)
            &&& is_ok_reply(reply)
        },
    }
}

/// A `SET key value` answered and then a `GET key` answered: the `GET`
/// answers `value`, whatever the store held before.
pub proof fn law_set_then_get(
    m0: Map<Seq<char>, Seq<u8>>,
    m1: Map<Seq<char>, Seq<u8>>,
    m2: Map<Seq<char>, Seq<u8>>,
    key: Seq<char>,
    value: Seq<u8>,
    r1: Result<RespFrame, ProcessError>,
    r2: Result<RespFrame, ProcessError>,
)
    requires
        answered(m0, Some(CommandView::SetKey(key, value)), m1, r1),
        answered(m1, Some(CommandView::GetKey(key)), m2, r2),
    ensures
        r1 matches Ok(RespFrame::Simple(s)) && s@ == "OK"@,
        r2 matches Ok(RespFrame::Bulk(b)) && bytes_contents(b) == value,
        m2 == m0.insert(key, value),
{
}

/// Why a request got no answer.
pub enum ProcessError {
    /// The frame does not decode to a request.
    Malformed,
    /// The request is not one this server carries out.
    Unsupported { description: String },
}

/// Every `SET` is answered with the simple string `OK`, whether or not its
/// key was bound before, and binds its key to its value.
pub proof fn law_set_answers_ok(
    before: Map<Seq<char>, Seq<u8>>,
    after: Map<Seq<char>, Seq<u8>>,
    key: Seq<char>,
    value: Seq<u8>,
    r: Result<RespFrame, ProcessError>,
)
    requires
        answered(before, Some(CommandView::SetKey(key, value)), after, r),
    ensures
        r matches Ok(RespFrame::Simple(s)) && s@ == "OK"@,
        after.dom().contains(key) && after[key] == value,
        forall|k: Seq<char>| k != key ==> (#[trigger] after.dom().contains(k)) == before.dom().contains(k),
{
}

/// Keys are compared exactly, letter case included: a `SET` of one key
/// leaves what a `GET` of any other key answers as it was.
pub proof fn law_keys_are_exact(
    m0: Map<Seq<char>, Seq<u8>>,
    m1: Map<Seq<char>, Seq<u8>>,
    m2: Map<Seq<char>, Seq<u8>>,
    set_key: Seq<char>,
    value: Seq<u8>,
    get_key: Seq<char>,
    r1: Result<RespFrame, ProcessError>,
    r2: Result<RespFrame, ProcessError>,
)
    requires
        answered(m0, Some(CommandView::SetKey(set_key, value)), m1, r1),
        answered(m1, Some(CommandView::GetKey(get_key)), m2, r2),
        set_key != get_key,
    ensures
        r2 matches Ok(reply) && is_get_reply(m0, get_key, reply),
        !m0.dom().contains(get_key) ==> r2 matches Ok(RespFrame::Null),
{
}

/// The answer `apply` gives a `SET` is exactly the simple string `OK`.
pub proof fn law_ok_reply_is_plain_ok(reply: RespFrame)
    requires
        is_ok_reply(reply),
    ensures
        reply matches RespFrame::Simple(s) && s@ == "OK"@,
{
}

/// A `GET` after a `SET` of the same key answers the bytes that were set.
pub proof fn law_get_after_set(
    before: Map<Seq<char>, Seq<u8>>,
    after: Map<Seq<char>, Seq<u8>>,
    key: Seq<char>,
    value: Seq<u8>,
    reply: RespFrame,
)
    requires
        after == before.insert(key, value),
        is_get_reply(after, key, reply),
    ensures
        reply matches RespFrame::Bulk(b) && bytes_contents(b) == value,
{
}

/// A `SET` changes what `GET` answers for its own key only.
pub proof fn law_set_leaves_other_keys(
    before: Map<Seq<char>, Seq<u8>>,
    after: Map<Seq<char>, Seq<u8>>,
    key: Seq<char>,
    value: Seq<u8>,
    other: Seq<char>,
    reply: RespFrame,
)
    requires
        after == before.insert(key, value),
        other != key,
    ensures
        is_get_reply(after, other, reply) == is_get_reply(before, other, reply),
{
}

/// Of two `SET`s of one key, the later one wins.
pub proof fn law_last_set_wins(
    before: Map<Seq<char>, Seq<u8>>,
    key: Seq<char>,
    first: Seq<u8>,
    second: Seq<u8>,
)
    ensures
        before.insert(key, first).insert(key, second) == before.insert(key, second),
{
    assert(before.insert(key, first).insert(key, second) =~= before.insert(key, second));
}

/// On a fresh store every `GET` answers null.
pub proof fn law_fresh_store_answers_null(key: Seq<char>, reply: RespFrame)
    requires
        is_get_reply(Map::<Seq<char>, Seq<u8>>::empty(), key, reply),
    ensures
        reply is Null,
{
}

/// The store: each key is bound to the bytes last set for it.
pub struct Db {
    entries: Vec<(String, Bytes)>,
}

impl Db {
    /// The bindings of the store.
    pub closed spec fn view(&self) -> Map<Seq<char>, Seq<u8>> {
        entries_map(self.entries@)
    }

    /// The store's internal bookkeeping holds (no key is stored twice).
    pub closed spec fn wf(&self) -> bool {
        distinct_keys(self.entries@)
    }

    /// An empty store.
    pub fn new() -> (r: Db)
        ensures
            r.wf(),
            r.view() == Map::<Seq<char>, Seq<u8>>::empty(),
    {
        Db { entries: Vec::new() }
    }

    fn find(&self, key: &String) -> (r: Option<usize>)
        requires
            self.wf(),
        ensures
            match r {
                Some(i) => i < self.entries@.len() && self.entries@[i as int].0@ == key@,
                None => forall|i: int| 0 <= i < self.entries@.len() ==> (#[trigger] self.entries@[i]).0@ != key@,
            },
    {
        let n = self.entries.len();
        let mut i: usize = 0;
        while i < n
            invariant
                n == self.entries@.len(),
                i <= n,
                forall|j: int| 0 <= j < i ==> (#[trigger] self.entries@[j]).0@ != key@,
            decreases n - i,
        {
            if self.entries[i].0 == *key {
                return Some(i);
            }
            i = i + 1;
        }
        None
    }

    /// The bytes bound to `key`, if any.
    pub fn get(&self, key: &str) -> (r: Option<Bytes>)
        requires
            self.wf(),
        ensures
            match r {
                Some(b) => self.view().dom().contains(key@) && bytes_contents(b) == self.view()[key@],
                None => !self.view().dom().contains(key@),
            },
    {
        let k = key.to_owned();
        match self.find(&k) {
            Some(i) => {
                proof {
                    lemma_entries_map_value(self.entries@, i as int);
                }
                Some(bytes_clone(&self.entries[i].1))
            },
            None => {
                proof {
                    lemma_entries_map_dom(self.entries@, key@);
                }
                None
            },
        }
    }

    /// Binds `key` to `value`, replacing what it was bound to.
    pub fn set(&mut self, key: String, value: Bytes)
        requires
            old(self).wf(),
        ensures
            final(self).wf(),
            final(self).view() == old(self).view().insert(key@, bytes_contents(value)),
    {
        match self.find(&key) {
            Some(i) => {
                proof {
                    lemma_entries_map_update(self.entries@, i as int, (key, value));
                }
                self.entries.set(i, (key, value));
            },
            None => {
                let ghost old_entries = self.entries@;
                self.entries.push((key, value));
                assert(self.entries@.drop_last() =~= old_entries);
            },
        }
    }

    /// Carries out `GET` or `SET` and gives the answer to send back.
    pub fn apply(&mut self, cmd: Command) -> (reply: RespFrame)
        requires
            old(self).wf(),
            !(cmd is Unsupported),
        ensures
            final(self).wf(),
            match cmd {
                Command::GetKey { key } => {
                    &&& final(self).view() == old(self).view()
                    &&& is_get_reply(old(self).view(), key@, reply)
                },
                Command::SetKey { key, value } => {
                    &&& final(self).view() == old(self).view().insert(key@, bytes_contents(value))
                    &&& is_ok_reply(reply)
                },
                Command::Unsupported { .. } => false,
            },
    {
        match cmd {
            Command::GetKey { key } => match self.get(key.as_str()) {
                Some(value) => RespFrame::Bulk(value),
                None => RespFrame::Null,
            },
            Command::SetKey { key, value } => {
                self.set(key, value);
                RespFrame::Simple("OK".to_owned())
            },
            Command::Unsupported { .. } => RespFrame::Null,
        }
    }

    /// Answers one received frame: decodes the request and carries it out.
    /// A frame that is no request, or a request other than `GET` and `SET`,
    /// leaves the store as it was and gets no answer.
    pub fn process_frame(&mut self, frame: RespFrame) -> (r: Result<RespFrame, ProcessError>)
        requires
            old(self).wf(),
        ensures
            final(self).wf(),
            answered(old(self).view(), resp_decode(frame.view()), final(self).view(), r),
            forall|name: Seq<u8>, key: Seq<char>|
                ascii_caseless_eq(name, word_get()) && frame.view() == #[trigger] request_frame2(name, key)
                    ==> answered(old(self).view(), Some(CommandView::GetKey(key)), final(self).view(), r),
            forall|name: Seq<u8>, key: Seq<char>, value: Seq<u8>|
                ascii_caseless_eq(name, word_set()) && frame.view() == #[trigger] request_frame3(name, key, value)
                    ==> answered(old(self).view(), Some(CommandView::SetKey(key, value)), final(self).view(), r),
    {
        let decoded = command_from_frame(frame);
        self.answer_command(decoded)
    }

    /// Answers a decoded request: `GET` and `SET` are carried out as `apply`
    /// does; another request, or a frame that was no request, leaves the
    /// store as it was and is reported as such.
    pub fn answer_command(&mut self, decoded: Result<Command, MalformedCommand>) -> (r: Result<RespFrame, ProcessError>)
        requires
            old(self).wf(),
        ensures
            final(self).wf(),
            answered(old(self).view(), decoded_view(decoded), final(self).view(), r),
    {
        match decoded {
            Ok(cmd) => match cmd {
                Command::Unsupported { description } => Err(ProcessError::Unsupported { description }),
                _ => Ok(self.apply(cmd)),
            },
            Err(_) => Err(ProcessError::Malformed),
        }
    }
}

} // verus!
