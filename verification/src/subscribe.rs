//! The packets that ask for topics, answer such a request, and give topics
//! up.

use crate::buffer::{contents, len};
use crate::decoder::{read_string, read_u8};
use crate::encoder::{has_room, put_length, put_string, size_of_length, write_u8};
use crate::error::CodecError;
use crate::utils::{qos_of, PacketIdentifier, QoS};
use crate::wire::{
    length_bytes, read_pid_spec, read_string_spec, read_u8_spec, string_bytes, u16_bytes, Outcome,
    MAX_FIELD, MAX_LENGTH,
};
use bytes::BytesMut;
use vstd::prelude::*;
use vstd::utf8::*;

verus! {

/// A topic filter with the quality of service that is asked for it.
#[derive(Debug, Clone, PartialEq)]
pub struct SubscribeTopic {
    pub topic_path: String,
    pub qos: QoS,
}

/// What a requested topic holds, as plain values.
pub ghost struct SubscribeTopicView {
    pub topic_path: Seq<char>,
    pub qos: QoS,
}

impl View for SubscribeTopic {
    type V = SubscribeTopicView;

    open spec fn view(&self) -> SubscribeTopicView {
        SubscribeTopicView { topic_path: self.topic_path@, qos: self.qos }
    }
}

/// The answer to the request for one topic: the quality of service that is
/// granted, or a refusal.
#[derive(Debug, Clone, Copy, PartialEq, Eq, Structural)]
pub enum SubscribeReturnCodes {
    Success(QoS),
    Failure,
}

/// A request for topics.
#[derive(Debug, Clone, PartialEq)]
pub struct Subscribe {
    pub pid: PacketIdentifier,
    pub topics: Vec<SubscribeTopic>,
}

/// What a request for topics holds, as plain values.
pub ghost struct SubscribeView {
    pub pid: u16,
    pub topics: Seq<SubscribeTopicView>,
}

/// The views of requested topics.
pub open spec fn topic_views(topics: Seq<SubscribeTopic>) -> Seq<SubscribeTopicView> {
    topics.map_values(|topic: SubscribeTopic| topic@)
}

impl View for Subscribe {
    type V = SubscribeView;

    open spec fn view(&self) -> SubscribeView {
        SubscribeView { pid: self.pid@, topics: topic_views(self.topics@) }
    }
}

/// The answer to a request for topics: one return code for each.
#[derive(Debug, Clone, PartialEq)]
pub struct Suback {
    pub pid: PacketIdentifier,
    pub return_codes: Vec<SubscribeReturnCodes>,
}

/// What an answer to a request for topics holds, as plain values.
pub ghost struct SubackView {
    pub pid: u16,
    pub return_codes: Seq<SubscribeReturnCodes>,
}

impl View for Suback {
    type V = SubackView;

    open spec fn view(&self) -> SubackView {
        SubackView { pid: self.pid@, return_codes: self.return_codes@ }
    }
}

/// A request to give topics up.
#[derive(Debug, Clone, PartialEq)]
pub struct Unsubscribe {
    pub pid: PacketIdentifier,
    pub topics: Vec<String>,
}

/// What a request to give topics up holds, as plain values.
pub ghost struct UnsubscribeView {
    pub pid: u16,
    pub topics: Seq<Seq<char>>,
}

/// The views of texts.
pub open spec fn text_views(texts: Seq<String>) -> Seq<Seq<char>> {
    texts.map_values(|text: String| text@)
}

impl View for Unsubscribe {
    type V = UnsubscribeView;

    open spec fn view(&self) -> UnsubscribeView {
        UnsubscribeView { pid: self.pid@, topics: text_views(self.topics@) }
    }
}

/// The outcome of reading a list of which `first` was read before and
/// `tail` says how the rest went.
pub open spec fn prepended<T>(first: Seq<T>, tail: Outcome<Seq<T>>) -> Outcome<Seq<T>> {
    match tail.0 {
        Ok(more) => (Ok(first + more), tail.1),
        Err(e) => (Err(e), tail.1),
    }
}

/// Reads one requested topic: a topic filter and a byte that holds a
/// quality of service.
pub open spec fn read_topic_spec(s: Seq<u8>) -> Outcome<SubscribeTopicView> {
    let (topic_path, after_path) = read_string_spec(s);
    match topic_path {
        Err(e) => (Err(e), after_path),
        Ok(topic_path) => {
            let (byte, after_qos) = read_u8_spec(after_path);
            match byte {
                Err(e) => (Err(e), after_qos),
                Ok(byte) => match qos_of(byte) {
                    None => (Err(CodecError::InvalidEnumValue), after_qos),
                    Some(qos) => (Ok(SubscribeTopicView { topic_path, qos }), after_qos),
                },
            }
        },
    }
}

/// Reads requested topics until no byte is left.
pub open spec fn read_topics_spec(s: Seq<u8>) -> Outcome<Seq<SubscribeTopicView>>
    decreases s.len(),
{
    if s.len() == 0 {
        (Ok(Seq::empty()), s)
    } else {
        let (topic, rest) = read_topic_spec(s);
        match topic {
            Err(e) => (Err(e), rest),
            Ok(topic) => prepended(seq![topic], read_topics_spec(rest)),
        }
    }
}

/// Reads the body of a request for topics: an identifier and at least one
/// requested topic. A body that ends after the identifier is cut short.
pub open spec fn read_subscribe_spec(s: Seq<u8>) -> Outcome<SubscribeView> {
    let (pid, after_pid) = read_pid_spec(s);
    match pid {
        Err(e) => (Err(e), after_pid),
        Ok(pid) => if after_pid.len() == 0 {
            (Err(CodecError::Truncated), after_pid)
        } else {
            let (topics, rest) = read_topics_spec(after_pid);
            match topics {
                Err(e) => (Err(e), rest),
                Ok(topics) => (Ok(SubscribeView { pid, topics }), rest),
            }
        },
    }
}

/// A requested topic that was read took at least three bytes.
pub proof fn lemma_read_topic_consumes(s: Seq<u8>)
    ensures
        read_topic_spec(s).0 is Ok ==> read_topic_spec(s).1.len() + 3 <= s.len(),
{
}

/// Reads one requested topic.
fn read_topic(buffer: &mut BytesMut) -> (r: Result<SubscribeTopic, CodecError>)
    ensures
        match r {
            Ok(topic) => read_topic_spec(contents(*old(buffer))).0 == Ok::<
                SubscribeTopicView,
                CodecError,
            >(topic@),
            Err(e) => read_topic_spec(contents(*old(buffer))).0 == Err::<
                SubscribeTopicView,
                CodecError,
            >(e),
        },
        contents(*final(buffer)) == read_topic_spec(contents(*old(buffer))).1,
{
    let topic_path = match read_string(buffer) {
        Ok(topic_path) => topic_path,
        Err(e) => return Err(e),
    };
    let byte = match read_u8(buffer) {
        Ok(byte) => byte,
        Err(e) => return Err(e),
    };
    match QoS::from_u8(byte) {
        Ok(qos) => Ok(SubscribeTopic { topic_path, qos }),
        Err(e) => Err(e),
    }
}

impl Subscribe {
    /// Reads the body of a request for topics, which is all that the buffer
    /// holds.
    pub fn from_buffer(buffer: &mut BytesMut) -> (r: Result<Self, CodecError>)
        ensures
            match r {
                Ok(subscribe) => read_subscribe_spec(contents(*old(buffer))).0 == Ok::<
                    SubscribeView,
                    CodecError,
                >(subscribe@),
                Err(e) => read_subscribe_spec(contents(*old(buffer))).0 == Err::<
                    SubscribeView,
                    CodecError,
                >(e),
            },
            contents(*final(buffer)) == read_subscribe_spec(contents(*old(buffer))).1,
    {
        let pid = match PacketIdentifier::from_buffer(buffer) {
            Ok(pid) => pid,
            Err(e) => return Err(e),
        };
        if len(buffer) == 0 {
            return Err(CodecError::Truncated);
        }
        let ghost after_pid = contents(*buffer);
        let mut topics: Vec<SubscribeTopic> = Vec::new();
        assert(topic_views(topics@) =~= Seq::empty());
        assert(Seq::<SubscribeTopicView>::empty() + read_topics_spec(after_pid).0->Ok_0
            =~= read_topics_spec(after_pid).0->Ok_0);
        while len(buffer) > 0
            invariant
                read_pid_spec(contents(*old(buffer))) == (Ok::<u16, CodecError>(pid@), after_pid),
                after_pid.len() > 0,
                read_topics_spec(after_pid) == prepended(
                    topic_views(topics@),
                    read_topics_spec(contents(*buffer)),
                ),
            decreases contents(*buffer).len(),
        {
            let ghost before = contents(*buffer);
            let ghost read = topic_views(topics@);
            proof {
                lemma_read_topic_consumes(before);
            }
            let topic = match read_topic(buffer) {
                Ok(topic) => topic,
                Err(e) => return Err(e),
            };
            topics.push(topic);
            proof {
                assert(topic_views(topics@) =~= read + seq![topic@]);
                let tail = read_topics_spec(contents(*buffer));
                if tail.0 is Ok {
                    assert(read + (seq![topic@] + tail.0->Ok_0) =~= (read + seq![topic@])
                        + tail.0->Ok_0);
                }
            }
        }
        proof {
            assert(topic_views(topics@) + Seq::<SubscribeTopicView>::empty() =~= topic_views(
                topics@,
            ));
        }
        Ok(Subscribe { pid, topics })
    }
}

/// The return code that a byte stands for: 0, 1 and 2 grant that quality
/// of service, 0x80 refuses, and no other byte is a return code.
pub open spec fn subscribe_code_of(byte: u8) -> Option<SubscribeReturnCodes> {
    if byte == 0x80 {
        Some(SubscribeReturnCodes::Failure)
    } else {
        match qos_of(byte) {
            Some(qos) => Some(SubscribeReturnCodes::Success(qos)),
            None => None,
        }
    }
}

impl SubscribeReturnCodes {
    /// The byte that stands for a return code.
    pub open spec fn wire(self) -> u8 {
        match self {
            SubscribeReturnCodes::Success(qos) => qos.wire(),
            SubscribeReturnCodes::Failure => 0x80,
        }
    }

    /// The byte that stands for the return code.
    pub fn to_u8(&self) -> (byte: u8)
        ensures
            byte == self.wire(),
    {
        match *self {
            SubscribeReturnCodes::Success(qos) => qos.to_u8(),
            SubscribeReturnCodes::Failure => 0x80,
        }
    }

    /// The return code that a byte stands for.
    pub fn from_u8(byte: u8) -> (r: Result<SubscribeReturnCodes, CodecError>)
        ensures
            r == match subscribe_code_of(byte) {
                Some(code) => Ok::<SubscribeReturnCodes, CodecError>(code),
                None => Err(CodecError::InvalidEnumValue),
            },
    {
        if byte == 0x80 {
            Ok(SubscribeReturnCodes::Failure)
        } else {
            match QoS::from_u8(byte) {
                Ok(qos) => Ok(SubscribeReturnCodes::Success(qos)),
                Err(e) => Err(e),
            }
        }
    }

    /// Reading back the byte of a return code gives the return code.
    pub proof fn lemma_wire_round_trip(self)
        ensures
            subscribe_code_of(self.wire()) == Some(self),
    {
    }
}

/// Reads return codes, a byte each, until no byte is left.
pub open spec fn read_codes_spec(s: Seq<u8>) -> Outcome<Seq<SubscribeReturnCodes>>
    decreases s.len(),
{
    if s.len() == 0 {
        (Ok(Seq::empty()), s)
    } else {
        match subscribe_code_of(s[0]) {
            None => (Err(CodecError::InvalidEnumValue), s.skip(1)),
            Some(code) => prepended(seq![code], read_codes_spec(s.skip(1))),
        }
    }
}

/// Reads the body of an answer to a request for topics: an identifier and
/// return codes.
pub open spec fn read_suback_spec(s: Seq<u8>) -> Outcome<SubackView> {
    let (pid, after_pid) = read_pid_spec(s);
    match pid {
        Err(e) => (Err(e), after_pid),
        Ok(pid) => {
            let (return_codes, rest) = read_codes_spec(after_pid);
            match return_codes {
                Err(e) => (Err(e), rest),
                Ok(return_codes) => (Ok(SubackView { pid, return_codes }), rest),
            }
        },
    }
}

impl Suback {
    /// Reads the body of an answer to a request for topics, which is all
    /// that the buffer holds.
    pub fn from_buffer(buffer: &mut BytesMut) -> (r: Result<Self, CodecError>)
        ensures
            match r {
                Ok(suback) => read_suback_spec(contents(*old(buffer))).0 == Ok::<
                    SubackView,
                    CodecError,
                >(suback@),
                Err(e) => read_suback_spec(contents(*old(buffer))).0 == Err::<
                    SubackView,
                    CodecError,
                >(e),
            },
            contents(*final(buffer)) == read_suback_spec(contents(*old(buffer))).1,
    {
        let pid = match PacketIdentifier::from_buffer(buffer) {
            Ok(pid) => pid,
            Err(e) => return Err(e),
        };
        let ghost after_pid = contents(*buffer);
        let mut return_codes: Vec<SubscribeReturnCodes> = Vec::new();
        assert(Seq::<SubscribeReturnCodes>::empty() + read_codes_spec(after_pid).0->Ok_0
            =~= read_codes_spec(after_pid).0->Ok_0);
        while len(buffer) > 0
            invariant
                read_pid_spec(contents(*old(buffer))) == (Ok::<u16, CodecError>(pid@), after_pid),
                read_codes_spec(after_pid) == prepended(
                    return_codes@,
                    read_codes_spec(contents(*buffer)),
                ),
            decreases contents(*buffer).len(),
        {
            let ghost read = return_codes@;
            let byte = match read_u8(buffer) {
                Ok(byte) => byte,
                Err(e) => return Err(e),
            };
            let code = match SubscribeReturnCodes::from_u8(byte) {
                Ok(code) => code,
                Err(e) => return Err(e),
            };
            return_codes.push(code);
            proof {
                assert(return_codes@ =~= read + seq![code]);
                let tail = read_codes_spec(contents(*buffer));
                if tail.0 is Ok {
                    assert(read + (seq![code] + tail.0->Ok_0) =~= (read + seq![code])
                        + tail.0->Ok_0);
                }
            }
        }
        proof {
            assert(return_codes@ + Seq::<SubscribeReturnCodes>::empty() =~= return_codes@);
        }
        Ok(Suback { pid, return_codes })
    }
}

/// Reads topic filters until no byte is left.
pub open spec fn read_filters_spec(s: Seq<u8>) -> Outcome<Seq<Seq<char>>>
    decreases s.len(),
{
    if s.len() == 0 {
        (Ok(Seq::empty()), s)
    } else {
        let (filter, rest) = read_string_spec(s);
        match filter {
            Err(e) => (Err(e), rest),
            Ok(filter) => prepended(seq![filter], read_filters_spec(rest)),
        }
    }
}

/// Reads the body of a request to give topics up: an identifier and at
/// least one topic filter. A body that ends after the identifier is cut
/// short.
pub open spec fn read_unsubscribe_spec(s: Seq<u8>) -> Outcome<UnsubscribeView> {
    let (pid, after_pid) = read_pid_spec(s);
    match pid {
        Err(e) => (Err(e), after_pid),
        Ok(pid) => if after_pid.len() == 0 {
            (Err(CodecError::Truncated), after_pid)
        } else {
            let (topics, rest) = read_filters_spec(after_pid);
            match topics {
                Err(e) => (Err(e), rest),
                Ok(topics) => (Ok(UnsubscribeView { pid, topics }), rest),
            }
        },
    }
}

impl Unsubscribe {
    /// Reads the body of a request to give topics up, which is all that the
    /// buffer holds.
    pub fn from_buffer(buffer: &mut BytesMut) -> (r: Result<Self, CodecError>)
        ensures
            match r {
                Ok(unsubscribe) => read_unsubscribe_spec(contents(*old(buffer))).0 == Ok::<
                    UnsubscribeView,
                    CodecError,
                >(unsubscribe@),
                Err(e) => read_unsubscribe_spec(contents(*old(buffer))).0 == Err::<
                    UnsubscribeView,
                    CodecError,
                >(e),
            },
            contents(*final(buffer)) == read_unsubscribe_spec(contents(*old(buffer))).1,
    {
        let pid = match PacketIdentifier::from_buffer(buffer) {
            Ok(pid) => pid,
            Err(e) => return Err(e),
        };
        if len(buffer) == 0 {
            return Err(CodecError::Truncated);
        }
        let ghost after_pid = contents(*buffer);
        let mut topics: Vec<String> = Vec::new();
        assert(text_views(topics@) =~= Seq::empty());
        assert(Seq::<Seq<char>>::empty() + read_filters_spec(after_pid).0->Ok_0
            =~= read_filters_spec(after_pid).0->Ok_0);
        while len(buffer) > 0
            invariant
                read_pid_spec(contents(*old(buffer))) == (Ok::<u16, CodecError>(pid@), after_pid),
                after_pid.len() > 0,
                read_filters_spec(after_pid) == prepended(
                    text_views(topics@),
                    read_filters_spec(contents(*buffer)),
                ),
            decreases contents(*buffer).len(),
        {
            let ghost read = text_views(topics@);
            let filter = match read_string(buffer) {
                Ok(filter) => filter,
                Err(e) => return Err(e),
            };
            topics.push(filter);
            proof {
                assert(text_views(topics@) =~= read + seq![filter@]);
                let tail = read_filters_spec(contents(*buffer));
                if tail.0 is Ok {
                    assert(read + (seq![filter@] + tail.0->Ok_0) =~= (read + seq![filter@])
                        + tail.0->Ok_0);
                }
            }
        }
        proof {
            assert(text_views(topics@) + Seq::<Seq<char>>::empty() =~= text_views(topics@));
        }
        Ok(Unsubscribe { pid, topics })
    }
}

/// The bytes of one requested topic: the topic filter, then the quality of
/// service.
pub open spec fn topic_bytes(topic: SubscribeTopicView) -> Seq<u8> {
    string_bytes(topic.topic_path) + seq![topic.qos.wire()]
}

/// The bytes of requested topics, one after the other.
pub open spec fn topics_bytes(topics: Seq<SubscribeTopicView>) -> Seq<u8>
    decreases topics.len(),
{
    if topics.len() == 0 {
        Seq::empty()
    } else {
        topic_bytes(topics[0]) + topics_bytes(topics.drop_first())
    }
}

/// Whether every requested topic has a filter of at most 65,535 bytes.
pub open spec fn topics_fit(topics: Seq<SubscribeTopicView>) -> bool {
    forall|i: int|
        0 <= i < topics.len() ==> encode_utf8(#[trigger] topics[i].topic_path).len() <= MAX_FIELD
}

/// The body of a request for topics: the identifier, then the topics.
pub open spec fn subscribe_body(v: SubscribeView) -> Seq<u8> {
    u16_bytes(v.pid) + topics_bytes(v.topics)
}

/// A request for topics on the wire: the byte 0x82, the length of the body,
/// and the body.
pub open spec fn subscribe_packet(v: SubscribeView) -> Seq<u8> {
    seq![0x82u8] + length_bytes(subscribe_body(v).len()) + subscribe_body(v)
}

/// Whether a request for topics can be written: every filter fits a length
/// prefix and the body fits a remaining length.
pub open spec fn subscribe_fits(v: SubscribeView) -> bool {
    topics_fit(v.topics) && subscribe_body(v).len() <= MAX_LENGTH
}

/// The topics from the `i`th on start with the `i`th, and the others follow.
pub proof fn lemma_topics_bytes_step(topics: Seq<SubscribeTopicView>, i: int)
    requires
        0 <= i < topics.len(),
    ensures
        topics_bytes(topics.skip(i)) == topic_bytes(topics[i]) + topics_bytes(topics.skip(i + 1)),
        topics_bytes(topics.skip(i)).len() == 3 + encode_utf8(topics[i].topic_path).len()
            + topics_bytes(topics.skip(i + 1)).len(),
{
    assert(topics.skip(i).drop_first() =~= topics.skip(i + 1));
}

/// Whether every filter fits its length prefix.
fn all_topics_fit(topics: &Vec<SubscribeTopic>) -> (fit: bool)
    ensures
        fit == topics_fit(topic_views(topics@)),
{
    let mut i: usize = 0;
    while i < topics.len()
        invariant
            i <= topics@.len(),
            forall|j: int|
                0 <= j < i ==> encode_utf8(#[trigger] topic_views(topics@)[j].topic_path).len()
                    <= MAX_FIELD,
        decreases topics@.len() - i,
    {
        if topics[i].topic_path.as_str().as_bytes().len() > MAX_FIELD {
            assert(topic_views(topics@)[i as int].topic_path == topics@[i as int].topic_path@);
            return false;
        }
        assert(topic_views(topics@)[i as int].topic_path == topics@[i as int].topic_path@);
        i += 1;
    }
    true
}

/// The number of bytes that topics whose filters fit take, where it is at
/// most `limit`.
fn topics_length(topics: &Vec<SubscribeTopic>, limit: usize) -> (n: Option<usize>)
    requires
        topics_fit(topic_views(topics@)),
        limit <= MAX_LENGTH,
    ensures
        match n {
            Some(n) => n == topics_bytes(topic_views(topics@)).len() && n <= limit,
            None => topics_bytes(topic_views(topics@)).len() > limit,
        },
{
    let ghost views = topic_views(topics@);
    let mut total: usize = 0;
    let mut i: usize = 0;
    assert(views.skip(0) =~= views);
    while i < topics.len()
        invariant
            views == topic_views(topics@),
            topics_fit(views),
            limit <= MAX_LENGTH,
            i <= topics@.len(),
            total <= limit,
            total + topics_bytes(views.skip(i as int)).len() == topics_bytes(views).len(),
        decreases topics@.len() - i,
    {
        proof {
            lemma_topics_bytes_step(views, i as int);
            assert(views[i as int].topic_path == topics@[i as int].topic_path@);
        }
        let step = 3 + topics[i].topic_path.as_str().as_bytes().len();
        if step > limit - total {
            return None;
        }
        total = total + step;
        i += 1;
    }
    assert(views.skip(i as int) =~= Seq::empty());
    Some(total)
}

/// Appends topics whose filters fit.
fn write_topics(topics: &Vec<SubscribeTopic>, buffer: &mut BytesMut)
    requires
        topics_fit(topic_views(topics@)),
        has_room(contents(*old(buffer)).len(), topics_bytes(topic_views(topics@)).len()),
    ensures
        contents(*final(buffer)) == contents(*old(buffer)) + topics_bytes(topic_views(topics@)),
{
    let ghost views = topic_views(topics@);
    let mut i: usize = 0;
    assert(views.skip(0) =~= views);
    while i < topics.len()
        invariant
            views == topic_views(topics@),
            topics_fit(views),
            i <= topics@.len(),
            has_room(contents(*buffer).len(), topics_bytes(views.skip(i as int)).len()),
            contents(*buffer) + topics_bytes(views.skip(i as int)) == contents(*old(buffer))
                + topics_bytes(views),
        decreases topics@.len() - i,
    {
        let ghost before = contents(*buffer);
        proof {
            lemma_topics_bytes_step(views, i as int);
            assert(views[i as int] == topics@[i as int]@);
        }
        put_string(topics[i].topic_path.as_str(), buffer);
        write_u8(topics[i].qos.to_u8(), buffer);
        proof {
            assert(contents(*buffer) =~= before + topic_bytes(views[i as int]));
            assert(before + (topic_bytes(views[i as int]) + topics_bytes(views.skip(i + 1))) =~= (
            before + topic_bytes(views[i as int])) + topics_bytes(views.skip(i + 1)));
        }
        i += 1;
    }
    assert(views.skip(i as int) =~= Seq::empty());
    assert(contents(*buffer) + Seq::<u8>::empty() =~= contents(*buffer));
}

/// Pieces appended one after the other make up what they make up when put
/// together first.
pub proof fn lemma_listed_assembled(
    start: Seq<u8>,
    kind: Seq<u8>,
    length: Seq<u8>,
    pid: Seq<u8>,
    list: Seq<u8>,
)
    ensures
        start + kind + length + pid + list == start + (kind + length + (pid + list)),
{
    assert(start + kind + length + pid + list =~= start + (kind + length + (pid + list)));
}

impl Subscribe {
    /// Appends the request for topics to the buffer: fixed header, remaining
    /// length and body.
    ///
    /// Nothing is written where a filter is too long for its length prefix,
    /// where the body is too long for a remaining length, or where the
    /// buffer cannot take the packet.
    pub fn to_buffer(&self, buffer: &mut BytesMut) -> (r: Result<(), CodecError>)
        ensures
            !topics_fit(self@.topics) ==> r == Err::<(), CodecError>(CodecError::FieldTooLong),
            topics_fit(self@.topics) && subscribe_body(self@).len() > MAX_LENGTH ==> r == Err::<
                (),
                CodecError,
            >(CodecError::MalformedLength),
            subscribe_fits(self@) && !has_room(
                contents(*old(buffer)).len(),
                subscribe_packet(self@).len(),
            ) ==> r == Err::<(), CodecError>(CodecError::BufferFull),
            subscribe_fits(self@) && has_room(
                contents(*old(buffer)).len(),
                subscribe_packet(self@).len(),
            ) ==> r is Ok,
            r is Ok ==> contents(*final(buffer)) == contents(*old(buffer)) + subscribe_packet(
                self@,
            ),
            r is Err ==> contents(*final(buffer)) == contents(*old(buffer)),
    {
        if !all_topics_fit(&self.topics) {
            return Err(CodecError::FieldTooLong);
        }
        let length = match topics_length(&self.topics, MAX_LENGTH - 2) {
            Some(n) => n + 2,
            None => return Err(CodecError::MalformedLength),
        };
        let size = size_of_length(length);
        if len(buffer) > usize::MAX - 1 - size - length {
            return Err(CodecError::BufferFull);
        }
        write_u8(0b10000010, buffer);
        put_length(length, buffer);
        self.pid.to_buffer(buffer);
        write_topics(&self.topics, buffer);
        proof {
            lemma_listed_assembled(
                contents(*old(buffer)),
                seq![0x82u8],
                length_bytes(length as nat),
                u16_bytes(self@.pid),
                topics_bytes(self@.topics),
            );
        }
        Ok(())
    }
}

/// The bytes of return codes, one each.
pub open spec fn codes_bytes(codes: Seq<SubscribeReturnCodes>) -> Seq<u8> {
    codes.map_values(|code: SubscribeReturnCodes| code.wire())
}

/// The body of an answer to a request for topics: the identifier, then the
/// return codes.
pub open spec fn suback_body(v: SubackView) -> Seq<u8> {
    u16_bytes(v.pid) + codes_bytes(v.return_codes)
}

/// An answer to a request for topics on the wire: the byte 0x90, the length
/// of the body, and the body.
pub open spec fn suback_packet(v: SubackView) -> Seq<u8> {
    seq![0x90u8] + length_bytes(suback_body(v).len()) + suback_body(v)
}

impl Suback {
    /// Appends the answer to the buffer: fixed header, remaining length and
    /// body.
    ///
    /// Nothing is written where the body is too long for a remaining length
    /// or where the buffer cannot take the packet.
    pub fn to_buffer(&self, buffer: &mut BytesMut) -> (r: Result<(), CodecError>)
        ensures
            suback_body(self@).len() > MAX_LENGTH ==> r == Err::<(), CodecError>(
                CodecError::MalformedLength,
            ),
            suback_body(self@).len() <= MAX_LENGTH && !has_room(
                contents(*old(buffer)).len(),
                suback_packet(self@).len(),
            ) ==> r == Err::<(), CodecError>(CodecError::BufferFull),
            suback_body(self@).len() <= MAX_LENGTH && has_room(
                contents(*old(buffer)).len(),
                suback_packet(self@).len(),
            ) ==> r is Ok,
            r is Ok ==> contents(*final(buffer)) == contents(*old(buffer)) + suback_packet(self@),
            r is Err ==> contents(*final(buffer)) == contents(*old(buffer)),
    {
        if self.return_codes.len() > MAX_LENGTH - 2 {
            return Err(CodecError::MalformedLength);
        }
        let length = 2 + self.return_codes.len();
        let size = size_of_length(length);
        if len(buffer) > usize::MAX - 1 - size - length {
            return Err(CodecError::BufferFull);
        }
        write_u8(0b10010000, buffer);
        put_length(length, buffer);
        self.pid.to_buffer(buffer);
        let ghost headed = contents(*buffer);
        let mut i: usize = 0;
        assert(codes_bytes(self.return_codes@.take(0)) =~= Seq::empty());
        assert(headed + Seq::<u8>::empty() =~= headed);
        while i < self.return_codes.len()
            invariant
                i <= self.return_codes@.len(),
                has_room(headed.len(), self.return_codes@.len()),
                contents(*buffer) == headed + codes_bytes(self.return_codes@.take(i as int)),
            decreases self.return_codes@.len() - i,
        {
            write_u8(self.return_codes[i].to_u8(), buffer);
            assert(contents(*buffer) =~= headed + codes_bytes(
                self.return_codes@.take(i as int + 1),
            ));
            i += 1;
        }
        proof {
            assert(self.return_codes@.take(i as int) =~= self.return_codes@);
            lemma_listed_assembled(
                contents(*old(buffer)),
                seq![0x90u8],
                length_bytes(length as nat),
                u16_bytes(self@.pid),
                codes_bytes(self@.return_codes),
            );
        }
        Ok(())
    }
}

/// The bytes of topic filters, one after the other.
pub open spec fn filters_bytes(filters: Seq<Seq<char>>) -> Seq<u8>
    decreases filters.len(),
{
    if filters.len() == 0 {
        Seq::empty()
    } else {
        string_bytes(filters[0]) + filters_bytes(filters.drop_first())
    }
}

/// Whether every topic filter has at most 65,535 bytes.
pub open spec fn filters_fit(filters: Seq<Seq<char>>) -> bool {
    forall|i: int| 0 <= i < filters.len() ==> encode_utf8(#[trigger] filters[i]).len() <= MAX_FIELD
}

/// The body of a request to give topics up: the identifier, then the topic
/// filters.
pub open spec fn unsubscribe_body(v: UnsubscribeView) -> Seq<u8> {
    u16_bytes(v.pid) + filters_bytes(v.topics)
}

/// A request to give topics up on the wire: the byte 0xa2, the length of
/// the body, and the body.
pub open spec fn unsubscribe_packet(v: UnsubscribeView) -> Seq<u8> {
    seq![0xa2u8] + length_bytes(unsubscribe_body(v).len()) + unsubscribe_body(v)
}

/// Whether a request to give topics up can be written: every filter fits a
/// length prefix and the body fits a remaining length.
pub open spec fn unsubscribe_fits(v: UnsubscribeView) -> bool {
    filters_fit(v.topics) && unsubscribe_body(v).len() <= MAX_LENGTH
}

/// The filters from the `i`th on start with the `i`th, and the others
/// follow.
pub proof fn lemma_filters_bytes_step(filters: Seq<Seq<char>>, i: int)
    requires
        0 <= i < filters.len(),
    ensures
        filters_bytes(filters.skip(i)) == string_bytes(filters[i]) + filters_bytes(
            filters.skip(i + 1),
        ),
        filters_bytes(filters.skip(i)).len() == 2 + encode_utf8(filters[i]).len() + filters_bytes(
            filters.skip(i + 1),
        ).len(),
{
    assert(filters.skip(i).drop_first() =~= filters.skip(i + 1));
}

/// Whether every filter fits its length prefix.
fn all_filters_fit(filters: &Vec<String>) -> (fit: bool)
    ensures
        fit == filters_fit(text_views(filters@)),
{
    let mut i: usize = 0;
    while i < filters.len()
        invariant
            i <= filters@.len(),
            forall|j: int|
                0 <= j < i ==> encode_utf8(#[trigger] text_views(filters@)[j]).len() <= MAX_FIELD,
        decreases filters@.len() - i,
    {
        assert(text_views(filters@)[i as int] == filters@[i as int]@);
        if filters[i].as_str().as_bytes().len() > MAX_FIELD {
            return false;
        }
        i += 1;
    }
    true
}

/// The number of bytes that filters which fit take, where it is at most
/// `limit`.
fn filters_length(filters: &Vec<String>, limit: usize) -> (n: Option<usize>)
    requires
        filters_fit(text_views(filters@)),
        limit <= MAX_LENGTH,
    ensures
        match n {
            Some(n) => n == filters_bytes(text_views(filters@)).len() && n <= limit,
            None => filters_bytes(text_views(filters@)).len() > limit,
        },
{
    let ghost views = text_views(filters@);
    let mut total: usize = 0;
    let mut i: usize = 0;
    assert(views.skip(0) =~= views);
    while i < filters.len()
        invariant
            views == text_views(filters@),
            filters_fit(views),
            limit <= MAX_LENGTH,
            i <= filters@.len(),
            total <= limit,
            total + filters_bytes(views.skip(i as int)).len() == filters_bytes(views).len(),
        decreases filters@.len() - i,
    {
        proof {
            lemma_filters_bytes_step(views, i as int);
            assert(views[i as int] == filters@[i as int]@);
        }
        let step = 2 + filters[i].as_str().as_bytes().len();
        if step > limit - total {
            return None;
        }
        total = total + step;
        i += 1;
    }
    assert(views.skip(i as int) =~= Seq::empty());
    Some(total)
}

/// Appends filters that fit.
fn write_filters(filters: &Vec<String>, buffer: &mut BytesMut)
    requires
        filters_fit(text_views(filters@)),
        has_room(contents(*old(buffer)).len(), filters_bytes(text_views(filters@)).len()),
    ensures
        contents(*final(buffer)) == contents(*old(buffer)) + filters_bytes(text_views(filters@)),
{
    let ghost views = text_views(filters@);
    let mut i: usize = 0;
    assert(views.skip(0) =~= views);
    while i < filters.len()
        invariant
            views == text_views(filters@),
            filters_fit(views),
            i <= filters@.len(),
            has_room(contents(*buffer).len(), filters_bytes(views.skip(i as int)).len()),
            contents(*buffer) + filters_bytes(views.skip(i as int)) == contents(*old(buffer))
                + filters_bytes(views),
        decreases filters@.len() - i,
    {
        let ghost before = contents(*buffer);
        proof {
            lemma_filters_bytes_step(views, i as int);
            assert(views[i as int] == filters@[i as int]@);
        }
        put_string(filters[i].as_str(), buffer);
        proof {
            assert(before + (string_bytes(views[i as int]) + filters_bytes(views.skip(i + 1)))
                =~= (before + string_bytes(views[i as int])) + filters_bytes(views.skip(i + 1)));
        }
        i += 1;
    }
    assert(views.skip(i as int) =~= Seq::empty());
    assert(contents(*buffer) + Seq::<u8>::empty() =~= contents(*buffer));
}

impl Unsubscribe {
    /// Appends the request to give topics up to the buffer: fixed header,
    /// remaining length and body.
    ///
    /// Nothing is written where a filter is too long for its length prefix,
    /// where the body is too long for a remaining length, or where the
    /// buffer cannot take the packet.
    pub fn to_buffer(&self, buffer: &mut BytesMut) -> (r: Result<(), CodecError>)
        ensures
            !filters_fit(self@.topics) ==> r == Err::<(), CodecError>(CodecError::FieldTooLong),
            filters_fit(self@.topics) && unsubscribe_body(self@).len() > MAX_LENGTH ==> r == Err::<
                (),
                CodecError,
            >(CodecError::MalformedLength),
            unsubscribe_fits(self@) && !has_room(
                contents(*old(buffer)).len(),
                unsubscribe_packet(self@).len(),
            ) ==> r == Err::<(), CodecError>(CodecError::BufferFull),
            unsubscribe_fits(self@) && has_room(
                contents(*old(buffer)).len(),
                unsubscribe_packet(self@).len(),
            ) ==> r is Ok,
            r is Ok ==> contents(*final(buffer)) == contents(*old(buffer)) + unsubscribe_packet(
                self@,
            ),
            r is Err ==> contents(*final(buffer)) == contents(*old(buffer)),
    {
        if !all_filters_fit(&self.topics) {
            return Err(CodecError::FieldTooLong);
        }
        let length = match filters_length(&self.topics, MAX_LENGTH - 2) {
            Some(n) => n + 2,
            None => return Err(CodecError::MalformedLength),
        };
        let size = size_of_length(length);
        if len(buffer) > usize::MAX - 1 - size - length {
            return Err(CodecError::BufferFull);
        }
        write_u8(0b10100010, buffer);
        put_length(length, buffer);
        self.pid.to_buffer(buffer);
        write_filters(&self.topics, buffer);
        proof {
            lemma_listed_assembled(
                contents(*old(buffer)),
                seq![0xa2u8],
                length_bytes(length as nat),
                u16_bytes(self@.pid),
                filters_bytes(self@.topics),
            );
        }
        Ok(())
    }
}

} // verus!
