//! The command protocol: how a request on the work queue is read into a
//! command, and how a response is written as a reply.

use crate::dates::{date_from_timestamp, timestamp_date, Moment, Range};
use crate::errors::FitbitError;
use crate::dates::Date;
use crate::models::{Command, CommandView, Response};
use crate::steps::{ordered, ordered_entries};
use crate::text::{
    escape, escape_content, field_views, free_of, from_chars, integer_text,
    lemma_integer_text_chars, lemma_integer_text_reads_back, lemma_split_field,
    lemma_split_plain, lemma_unescape_escape, parse_decimal, parse_i64, parse_i64_spec,
    push_integer, spells, split, split_fields, to_chars, unescape,
};
use vstd::prelude::*;
use vstd::std_specs::convert::{FromSpec, TryFromSpec};

verus! {

/// The identifier under which a requester waits for its reply: the 128 bits
/// of a ULID.
#[derive(Clone, Copy, Debug, PartialEq, Eq, Structural)]
pub struct CoordinationId {
    pub value: u128,
}

/// The ULID that a text writes, as `ulid::Ulid::from_string` reads it; `None`
/// where that function reports an error.
pub uninterp spec fn ulid_value(text: Seq<char>) -> Option<u128>;

/// The text that `ulid::Ulid::to_string` writes for a ULID.
pub uninterp spec fn ulid_text(value: u128) -> Seq<char>;

/// `ulid::Ulid::from_string`: the bits of the ULID that the text writes, or
/// `None` where the text is refused.
#[verifier::external_body]
fn read_ulid(text: &str) -> (value: Option<u128>)
    ensures
        value == ulid_value(text@),
{
    match ulid::Ulid::from_string(text) {
        Ok(id) => Some(id.0),
        Err(_) => None,
    }
}

/// `ulid::Ulid::to_string`: the text of the ULID with the given bits.
#[verifier::external_body]
fn write_ulid(value: u128) -> (text: String)
    ensures
        text@ == ulid_text(value),
{
    ulid::Ulid(value).to_string()
}

impl CoordinationId {
    /// Reads an identifier.
    pub fn parse(text: &str) -> (id: Option<CoordinationId>)
        ensures
            id == match ulid_value(text@) {
                Some(value) => Some(CoordinationId { value }),
                None => None,
            },
    {
        match read_ulid(text) {
            Some(value) => Some(CoordinationId { value }),
            None => None,
        }
    }

    /// Writes the identifier.
    pub fn to_string(&self) -> (text: String)
        ensures
            text@ == ulid_text(self.value),
    {
        write_ulid(self.value)
    }
}

/// What reading a request comes to.
pub enum Decoded {
    /// No reply is owed: the request names no requester, or its requester
    /// has stopped waiting.
    Dropped,
    /// The requester is owed an `InvalidMessage` error with this text.
    Rejected(u128, Seq<char>),
    /// The requester is owed the outcome of this command.
    Accepted(u128, CommandView),
}

/// The command that a command word and its payload ask for, or the reason
/// why they ask for none.
pub open spec fn decode_command(command: Seq<char>, payload: Seq<char>) -> Result<
    CommandView,
    Seq<char>,
> {
    let parts = split(payload, ',');
    if command == "get_steps"@ {
        if parts.len() != 3 {
            Err(
                "While decoding get_steps command, expected user_id,start_timestamp,end_timestamp, got "@
                    + payload,
            )
        } else {
            match parse_i64_spec(parts[1]) {
                None => Err(
                    "While decoding get_steps command, could not parse start_timestamp to integer. Expected UNIX timestamp, got "@
                        + parts[1],
                ),
                Some(start_secs) => match timestamp_date(start_secs as int) {
                    None => Err(
                        "While decoding get_steps command, could not parse start_timestamp to NaiveDateTime. Expected UNIX timestamp, got "@
                            + parts[1],
                    ),
                    Some(start) => match parse_i64_spec(parts[2]) {
                        None => Err(
                            "While decoding get_steps command, could not parse end_timestamp to integer. Expected UNIX timestamp, got "@
                                + parts[2],
                        ),
                        Some(end_secs) => match timestamp_date(end_secs as int) {
                            None => Err(
                                "While decoding get_steps command, could not parse end_timestamp to NaiveDateTime. Expected UNIX timestamp, got "@
                                    + parts[2],
                            ),
                            Some(end) => Ok(CommandView::GetSteps(parts[0], Range { start, end })),
                        },
                    },
                },
            }
        }
    } else if command == "refresh"@ {
        if parts.len() != 1 {
            Err("While decoding refresh command, expected user_id, got "@ + payload)
        } else {
            Ok(CommandView::RefreshToken(parts[0]))
        }
    } else {
        Err("Unknown command, got "@ + command)
    }
}

/// What reading `message` comes to at the instant `now`, where `id` is what
/// reading its first field as an identifier gave.
///
/// A request is `coordination_id:command:payload:ttl`. Without an identifier
/// it is dropped. With another number of fields than four, or a time-to-live
/// that is no instant, it is rejected. Once its time-to-live has passed it is
/// dropped. Otherwise the command decides.
pub open spec fn decode(message: Seq<char>, id: Option<u128>, now: int) -> Decoded {
    let fields = split(message, ':');
    match id {
        None => Decoded::Dropped,
        Some(id) => if fields.len() != 4 {
            Decoded::Rejected(
                id,
                "While decoding command, expected 4 fields: coordination_id, command, payload, TTL. Got "@
                    + message,
            )
        } else {
            match parse_i64_spec(fields[3]) {
                None => Decoded::Rejected(
                    id,
                    "While decoding command, could not parse TTL to integer. Expected UNIX timestamp, got "@
                        + fields[3],
                ),
                Some(ttl) => if timestamp_date(ttl as int) is None {
                    Decoded::Rejected(
                        id,
                        "While decoding command, could not parse TTL to NaiveDateTime. Expected UNIX timestamp, got "@
                            + integer_text(ttl as int),
                    )
                } else if ttl < now {
                    Decoded::Dropped
                } else {
                    match decode_command(fields[1], fields[2]) {
                        Ok(command) => Decoded::Accepted(id, command),
                        Err(reason) => Decoded::Rejected(id, reason),
                    }
                },
            }
        },
    }
}

/// Whether a decoder's result is what `decoded` describes.
pub open spec fn agrees(
    result: Option<(CoordinationId, Result<Command, FitbitError>)>,
    decoded: Decoded,
) -> bool {
    match decoded {
        Decoded::Dropped => result is None,
        Decoded::Rejected(id, reason) => result matches Some(
            (to, Err(FitbitError::InvalidMessage(text))),
        ) && to.value == id && text@ == reason,
        Decoded::Accepted(id, command) => result matches Some((to, Ok(decoded_command)))
            && to.value == id && decoded_command@ == command,
    }
}

/// An `InvalidMessage` error whose text is `heading` followed by `tail`.
fn invalid(heading: &str, tail: &Vec<char>) -> (error: FitbitError)
    ensures
        error matches FitbitError::InvalidMessage(text) && text@ == heading@ + tail@,
{
    let mut text = to_chars(heading);
    let mut tail_copy = tail.clone();
    text.append(&mut tail_copy);
    FitbitError::InvalidMessage(from_chars(&text))
}

/// Reads a command word and its payload.
pub fn decode_payload(command: &Vec<char>, payload: &Vec<char>) -> (result: Result<
    Command,
    FitbitError,
>)
    ensures
        match decode_command(command@, payload@) {
            Ok(view) => result matches Ok(decoded) && decoded@ == view,
            Err(reason) => result matches Err(FitbitError::InvalidMessage(text)) && text@
                == reason,
        },
{
    let parts = split_fields(payload, ',');
    proof {
        assert(forall|i: int|
            0 <= i < parts.len() ==> (#[trigger] field_views(parts@)[i]) == parts@[i]@);
    }
    if spells(command, "get_steps") {
        if parts.len() != 3 {
            return Err(
                invalid(
                    "While decoding get_steps command, expected user_id,start_timestamp,end_timestamp, got ",
                    payload,
                ),
            );
        }
        assert(field_views(parts@)[0] == parts@[0]@);
        assert(field_views(parts@)[1] == parts@[1]@);
        assert(field_views(parts@)[2] == parts@[2]@);
        let start_secs = match parse_i64(&parts[1]) {
            Some(secs) => secs,
            None => {
                return Err(
                    invalid(
                        "While decoding get_steps command, could not parse start_timestamp to integer. Expected UNIX timestamp, got ",
                        &parts[1],
                    ),
                );
            },
        };
        let start = match date_from_timestamp(start_secs) {
            Some(date) => date,
            None => {
                return Err(
                    invalid(
                        "While decoding get_steps command, could not parse start_timestamp to NaiveDateTime. Expected UNIX timestamp, got ",
                        &parts[1],
                    ),
                );
            },
        };
        let end_secs = match parse_i64(&parts[2]) {
            Some(secs) => secs,
            None => {
                return Err(
                    invalid(
                        "While decoding get_steps command, could not parse end_timestamp to integer. Expected UNIX timestamp, got ",
                        &parts[2],
                    ),
                );
            },
        };
        let end = match date_from_timestamp(end_secs) {
            Some(date) => date,
            None => {
                return Err(
                    invalid(
                        "While decoding get_steps command, could not parse end_timestamp to NaiveDateTime. Expected UNIX timestamp, got ",
                        &parts[2],
                    ),
                );
            },
        };
        Ok(Command::GetSteps(from_chars(&parts[0]), Range { start, end }))
    } else if spells(command, "refresh") {
        if parts.len() != 1 {
            return Err(invalid("While decoding refresh command, expected user_id, got ", payload));
        }
        assert(field_views(parts@)[0] == parts@[0]@);
        Ok(Command::RefreshToken(from_chars(&parts[0])))
    } else {
        Err(invalid("Unknown command, got ", command))
    }
}

/// Reads a request whose first field, read as an identifier, gave `id`.
pub fn decode_addressed(message: &Vec<char>, id: Option<u128>, now: i64) -> (result: Option<
    (CoordinationId, Result<Command, FitbitError>),
>)
    ensures
        agrees(result, decode(message@, id, now as int)),
{
    let value = match id {
        Some(value) => value,
        None => {
            return None;
        },
    };
    let to = CoordinationId { value };
    let fields = split_fields(message, ':');
    if fields.len() != 4 {
        return Some(
            (
                to,
                Err(
                    invalid(
                        "While decoding command, expected 4 fields: coordination_id, command, payload, TTL. Got ",
                        message,
                    ),
                ),
            ),
        );
    }
    assert(field_views(fields@)[1] == fields@[1]@);
    assert(field_views(fields@)[2] == fields@[2]@);
    assert(field_views(fields@)[3] == fields@[3]@);
    let ttl = match parse_i64(&fields[3]) {
        Some(ttl) => ttl,
        None => {
            return Some(
                (
                    to,
                    Err(
                        invalid(
                            "While decoding command, could not parse TTL to integer. Expected UNIX timestamp, got ",
                            &fields[3],
                        ),
                    ),
                ),
            );
        },
    };
    if date_from_timestamp(ttl).is_none() {
        let mut written: Vec<char> = Vec::new();
        push_integer(&mut written, ttl);
        assert(written@ == integer_text(ttl as int));
        return Some(
            (
                to,
                Err(
                    invalid(
                        "While decoding command, could not parse TTL to NaiveDateTime. Expected UNIX timestamp, got ",
                        &written,
                    ),
                ),
            ),
        );
    }
    if ttl < now {
        return None;
    }
    Some((to, decode_payload(&fields[1], &fields[2])))
}

/// The first field of a request: what stands before its first colon.
pub open spec fn first_field(message: Seq<char>) -> Seq<char> {
    split(message, ':')[0]
}

/// Reads a request at the instant `now`.
pub fn decode_message_at(message: &str, now: i64) -> (result: Option<
    (CoordinationId, Result<Command, FitbitError>),
>)
    ensures
        agrees(result, decode(message@, ulid_value(first_field(message@)), now as int)),
{
    let chars = to_chars(message);
    let fields = split_fields(&chars, ':');
    assert(field_views(fields@)[0] == fields@[0]@);
    let id_text = from_chars(&fields[0]);
    let id = read_ulid(id_text.as_str());
    decode_addressed(&chars, id, now)
}

/// Reads a request at the present instant. Which instant that is the clock
/// decides; the result is what reading at that instant comes to.
pub fn decode_message(message: String) -> (result: Option<
    (CoordinationId, Result<Command, FitbitError>),
>)
    ensures
        exists|now: i64|
            agrees(
                result,
                decode(message@, ulid_value(first_field(message@)), now as int),
            ),
{
    let now = Moment::now();
    decode_message_at(message.as_str(), now.timestamp)
}

/// The key under which the reply to a request is left for its requester.
pub open spec fn reply_key_text(id: CoordinationId) -> Seq<char> {
    "replies:"@ + ulid_text(id.value)
}

/// The number of seconds for which a reply is kept for its requester.
pub const REPLY_TTL_SECONDS: u64 = 60;

/// The key under which the reply to a request is left for its requester.
pub fn reply_key(id: &CoordinationId) -> (key: String)
    ensures
        key@ == reply_key_text(*id),
{
    reply_key_for(id.to_string().as_str())
}

/// The key under which the reply to the request with the identifier written
/// as `id` is left.
pub fn reply_key_for(id: &str) -> (key: String)
    ensures
        key@ == "replies:"@ + id@,
{
    let mut key = to_chars("replies:");
    let mut written = to_chars(id);
    key.append(&mut written);
    from_chars(&key)
}

/// A step count as it is sent: a count that a signed 32-bit integer cannot
/// hold is sent as zero.
pub open spec fn sent_count(count: u32) -> int {
    if count <= i32::MAX {
        count as int
    } else {
        0
    }
}

/// The counts of the entries in their order, written in base ten with a
/// comma between each two.
pub open spec fn counts_text(entries: Seq<(Date, u32)>) -> Seq<char>
    decreases entries.len(),
{
    if entries.len() == 0 {
        Seq::<char>::empty()
    } else if entries.len() == 1 {
        integer_text(sent_count(entries[0].1))
    } else {
        counts_text(entries.drop_last()).push(',') + integer_text(sent_count(entries.last().1))
    }
}

/// The counts of a reply can be read back: cutting the content at its
/// commas gives one field for each entry, in order, and each field writes
/// the count that was sent; and unescaping the escaped content gives the
/// content.
pub proof fn lemma_counts_read_back(entries: Seq<(Date, u32)>)
    requires
        entries.len() > 0,
    ensures
        unescape(escape(counts_text(entries))) == counts_text(entries),
        split(counts_text(entries), ',').len() == entries.len(),
        forall|i: int|
            0 <= i < entries.len() ==> parse_decimal(
                #[trigger] split(counts_text(entries), ',')[i],
            ) == Some(sent_count(entries[i].1)),
    decreases entries.len(),
{
    lemma_unescape_escape(counts_text(entries));
    let last = integer_text(sent_count(entries.last().1));
    lemma_integer_text_chars(sent_count(entries.last().1));
    lemma_integer_text_reads_back(sent_count(entries.last().1));
    assert(free_of(last, ','));
    if entries.len() == 1 {
        lemma_split_plain(last, ',');
        assert(entries[0] == entries.last());
    } else {
        let before = entries.drop_last();
        lemma_counts_read_back(before);
        lemma_split_field(counts_text(before), last, ',');
        let fields = split(counts_text(entries), ',');
        assert(fields == split(counts_text(before), ',').push(last));
        assert forall|i: int| 0 <= i < entries.len() implies parse_decimal(#[trigger] fields[i])
            == Some(sent_count(entries[i].1)) by {
            if i < before.len() {
                assert(fields[i] == split(counts_text(before), ',')[i]);
                assert(before[i] == entries[i]);
            }
        }
    }
}

/// What a response says, before escaping: the step counts by ascending day,
/// the word `refreshed`, or the line of an error.
pub open spec fn response_content(response: &Response) -> Seq<char> {
    match response {
        Response::Steps(steps) => counts_text(ordered(steps@)),
        Response::Refreshed => "refreshed"@,
        Response::Error(error) => error.display(),
    }
}

/// The mark of a reply: `1` for an error, `0` otherwise.
pub open spec fn response_indication(response: &Response) -> char {
    match response {
        Response::Error(_) => '1',
        _ => '0',
    }
}

/// A response on the wire: its mark, a colon, and its content escaped.
pub open spec fn response_text(response: &Response) -> Seq<char> {
    seq![response_indication(response), ':'] + escape(response_content(response))
}

/// Writes the counts of the entries with a comma between each two.
fn write_counts(entries: &Vec<(Date, u32)>) -> (content: Vec<char>)
    ensures
        content@ == counts_text(entries@),
{
    let mut content: Vec<char> = Vec::new();
    let mut i: usize = 0;
    while i < entries.len()
        invariant
            i <= entries.len(),
            content@ == counts_text(entries@.take(i as int)),
        decreases entries.len() - i,
    {
        let count = entries[i].1;
        let sent: i64 = if count <= 2147483647 {
            count as i64
        } else {
            0
        };
        proof {
            let upto = entries@.take(i + 1);
            assert(upto.drop_last() == entries@.take(i as int));
            assert(upto.last() == entries@[i as int]);
            if i == 0 {
                assert(upto[0] == entries@[0]);
            }
        }
        if i > 0 {
            content.push(',');
        }
        push_integer(&mut content, sent);
        i += 1;
    }
    assert(entries@.take(entries.len() as int) == entries@);
    content
}

/// Writes a response as it goes on the wire.
pub fn encode_response(response: Response) -> (wire: String)
    ensures
        wire@ == response_text(&response),
{
    let (indication, content) = match &response {
        Response::Steps(steps) => {
            let entries = ordered_entries(steps);
            ('0', write_counts(&entries))
        },
        Response::Refreshed => ('0', to_chars("refreshed")),
        Response::Error(error) => ('1', to_chars(error.to_string().as_str())),
    };
    let mut wire: Vec<char> = Vec::new();
    wire.push(indication);
    wire.push(':');
    let mut escaped = escape_content(&content);
    wire.append(&mut escaped);
    assert(wire@ == seq![indication, ':'] + escape(content@));
    from_chars(&wire)
}

/// What `safe_convert` gives: zero for a negative value, the value itself
/// where the target type can hold it, and 65535 otherwise.
pub open spec fn safe_convert_spec<T: TryFrom<i64> + From<u16>>(value: i64) -> T {
    if value < 0 {
        <T as FromSpec<u16>>::from_spec(0u16)
    } else {
        match <T as TryFromSpec<i64>>::try_from_spec(value) {
            Ok(converted) => converted,
            Err(_) => <T as FromSpec<u16>>::from_spec(65535u16),
        }
    }
}

/// Converts without failing: zero for a negative value, the value itself
/// where the target type can hold it, and 65535 otherwise.
pub fn safe_convert<T: TryFrom<i64> + From<u16>>(value: i64) -> (converted: T)
    ensures
        <T as FromSpec<u16>>::obeys_from_spec() && <T as TryFromSpec<i64>>::obeys_try_from_spec()
            ==> converted == safe_convert_spec::<T>(value),
{
    if value < 0 {
        T::from(0u16)
    } else {
        match T::try_from(value) {
            Ok(converted) => converted,
            Err(_) => T::from(65535u16),
        }
    }
}

} // verus!
