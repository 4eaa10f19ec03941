//! The store side of the library: how a client for the store is made from
//! connection parameters, and how an entry of any type is read and written
//! through one textual form.
//!
//! Nothing here talks to the store. Reading and writing are laid out as
//! commands to send and replies to take in: the caller sends each command and
//! hands the reply back.

use crate::errors::{ErrorView, KVAdminerError};
use crate::text::{
    chars_of, find_char, first_index, join, join_strings, marks_pieces, same_text, split,
    split_ranges, split_trim, split_trimmed, trim, trim_chars,
};
use vstd::prelude::*;
use vstd::string::StringExecFns;

verus! {

/// The store client of the `redis` crate. It holds where and as whom to
/// connect, and nothing is known of it here but what the functions below say.
#[verifier::external_type_specification]
#[verifier::external_body]
pub struct ExClient(redis::Client);

/// The error type of the `redis` crate.
#[verifier::external_type_specification]
#[verifier::external_body]
pub struct ExRedisError(redis::RedisError);

/// Where the store is, and as whom to connect to it.
#[derive(Debug, Clone, PartialEq, Eq)]
pub struct RedisInfo {
    pub host: String,
    pub port: String,
    pub username: Option<String>,
    pub password: Option<String>,
    /// The session on whose behalf the connection is asked for.
    pub session_id: Option<String>,
}

/// The URL that stands for `info`: user name and password, where given, go
/// in front of the host; a password without a user name is left out.
pub open spec fn redis_url(info: &RedisInfo) -> Seq<char> {
    let place = info.host@ + ":"@ + info.port@ + "/"@;
    match (info.username, info.password) {
        (Some(username), Some(password)) => "redis://"@ + username@ + ":"@ + password@ + "@"@
            + place,
        (Some(username), None) => "redis://"@ + username@ + "@"@ + place,
        (None, _) => "redis://"@ + place,
    }
}

/// The client that `redis::Client::open` makes of the URL `url`, or `None`
/// where it refuses the URL.
pub uninterp spec fn client_of_url(url: Seq<char>) -> Option<redis::Client>;

/// `redis::Client::open` on a URL held in a `String`. It parses the URL and
/// opens no connection; what it returns depends on the URL alone.
#[verifier::external_body]
fn open_client(url: String) -> (r: Result<redis::Client, redis::RedisError>)
    ensures
        r is Ok <==> client_of_url(url@) is Some,
        r matches Ok(client) ==> client_of_url(url@) == Some(client),
{
    redis::Client::open(url)
}

/// The URL that stands for `info`.
pub fn connection_url(info: &RedisInfo) -> (url: String)
    ensures
        url@ == redis_url(info),
{
    let mut url = String::from_str("redis://");
    match &info.username {
        Some(username) => {
            url.append(username.as_str());
            match &info.password {
                Some(password) => {
                    url.append(":");
                    url.append(password.as_str());
                },
                None => {},
            }
            url.append("@");
        },
        None => {},
    }
    url.append(info.host.as_str());
    url.append(":");
    url.append(info.port.as_str());
    url.append("/");
    url
}

/// What the store client made of a URL, as the library reports it: the
/// client, or that the URL is invalid, whatever the store client had against
/// it.
pub fn client_or_invalid_url(opened: Result<redis::Client, redis::RedisError>) -> (r: Result<
    redis::Client,
    KVAdminerError,
>)
    ensures
        match opened {
            Ok(client) => r == Ok::<redis::Client, KVAdminerError>(client),
            Err(_) => r == Err::<redis::Client, KVAdminerError>(KVAdminerError::InvalidRedisUrl),
        },
{
    match opened {
        Ok(client) => Ok(client),
        Err(_) => Err(KVAdminerError::InvalidRedisUrl),
    }
}

/// A client for the store at `info`. No connection is opened yet.
pub fn create_redis_client(info: &RedisInfo) -> (r: Result<redis::Client, KVAdminerError>)
    ensures
        match client_of_url(redis_url(info)) {
            Some(client) => r == Ok::<redis::Client, KVAdminerError>(client),
            None => r == Err::<redis::Client, KVAdminerError>(KVAdminerError::InvalidRedisUrl),
        },
{
    client_or_invalid_url(open_client(connection_url(info)))
}

/// The type of an entry of the store.
#[derive(Debug, Clone, Copy, PartialEq, Eq, Structural)]
pub enum RedisValueType {
    /// One text.
    String,
    /// Texts in the order they were appended.
    List,
    /// Texts without order or repetition.
    PlainSet,
    /// Texts ordered by a rank.
    ZSet,
    /// Fields with a value each.
    Hash,
    /// There is no entry under the key.
    Absent,
    /// The store named a type that is none of the above.
    Unknown,
}

impl DeepView for RedisValueType {
    type V = RedisValueType;

    open spec fn deep_view(&self) -> RedisValueType {
        *self
    }
}

/// A command for the store.
#[derive(Debug, Clone, PartialEq, Eq)]
pub enum StoreCommand {
    /// `TYPE key`: the name of the type of the entry.
    Type { key: String },
    /// `GET key`: the text of a string entry.
    Get { key: String },
    /// `LRANGE key start stop`: the items of a list from `start` to `stop`,
    /// where a negative index counts from the end.
    LRange { key: String, start: i64, stop: i64 },
    /// `SMEMBERS key`: the members of a set.
    SMembers { key: String },
    /// `ZRANGE key start stop`: the members of a sorted set by rising rank.
    ZRange { key: String, start: i64, stop: i64 },
    /// `HGETALL key`: the fields of a hash with their values.
    HGetAll { key: String },
    /// `SET key value`.
    SetString { key: String, value: String },
    /// `DEL key`.
    Del { key: String },
    /// `RPUSH key values..`: append to a list.
    RPush { key: String, values: Vec<String> },
    /// `SADD key members..`: add to a set.
    SAdd { key: String, members: Vec<String> },
    /// `ZADD key rank member ..`: add to a sorted set, each member with its rank.
    ZAdd { key: String, entries: Vec<(u64, String)> },
    /// `HSET key field value ..`: set several fields of a hash.
    HSetMultiple { key: String, pairs: Vec<(String, String)> },
    /// `HSET key field value`: set one field of a hash.
    HSet { key: String, field: String, value: String },
    /// `SCAN cursor MATCH pattern COUNT count`: the next batch of keys.
    Scan { cursor: u64, pattern: String, count: usize },
}

/// A `StoreCommand` as a mathematical value.
pub enum CommandView {
    Type { key: Seq<char> },
    Get { key: Seq<char> },
    LRange { key: Seq<char>, start: int, stop: int },
    SMembers { key: Seq<char> },
    ZRange { key: Seq<char>, start: int, stop: int },
    HGetAll { key: Seq<char> },
    SetString { key: Seq<char>, value: Seq<char> },
    Del { key: Seq<char> },
    RPush { key: Seq<char>, values: Seq<Seq<char>> },
    SAdd { key: Seq<char>, members: Seq<Seq<char>> },
    ZAdd { key: Seq<char>, entries: Seq<(u64, Seq<char>)> },
    HSetMultiple { key: Seq<char>, pairs: Seq<(Seq<char>, Seq<char>)> },
    HSet { key: Seq<char>, field: Seq<char>, value: Seq<char> },
    Scan { cursor: u64, pattern: Seq<char>, count: usize },
}

impl View for StoreCommand {
    type V = CommandView;

    open spec fn view(&self) -> CommandView {
        match self {
            StoreCommand::Type { key } => CommandView::Type { key: key@ },
            StoreCommand::Get { key } => CommandView::Get { key: key@ },
            StoreCommand::LRange { key, start, stop } => CommandView::LRange {
                key: key@,
                start: *start as int,
                stop: *stop as int,
            },
            StoreCommand::SMembers { key } => CommandView::SMembers { key: key@ },
            StoreCommand::ZRange { key, start, stop } => CommandView::ZRange {
                key: key@,
                start: *start as int,
                stop: *stop as int,
            },
            StoreCommand::HGetAll { key } => CommandView::HGetAll { key: key@ },
            StoreCommand::SetString { key, value } => CommandView::SetString {
                key: key@,
                value: value@,
            },
            StoreCommand::Del { key } => CommandView::Del { key: key@ },
            StoreCommand::RPush { key, values } => CommandView::RPush {
                key: key@,
                values: values.deep_view(),
            },
            StoreCommand::SAdd { key, members } => CommandView::SAdd {
                key: key@,
                members: members.deep_view(),
            },
            StoreCommand::ZAdd { key, entries } => CommandView::ZAdd {
                key: key@,
                entries: entries.deep_view(),
            },
            StoreCommand::HSetMultiple { key, pairs } => CommandView::HSetMultiple {
                key: key@,
                pairs: pairs.deep_view(),
            },
            StoreCommand::HSet { key, field, value } => CommandView::HSet {
                key: key@,
                field: field@,
                value: value@,
            },
            StoreCommand::Scan { cursor, pattern, count } => CommandView::Scan {
                cursor: *cursor,
                pattern: pattern@,
                count: *count,
            },
        }
    }
}

impl DeepView for StoreCommand {
    type V = CommandView;

    open spec fn deep_view(&self) -> CommandView {
        self@
    }
}

/// What the store answered to a command, as the store client decoded it.
#[derive(Debug, Clone, PartialEq, Eq)]
pub enum StoreReply {
    /// The command was carried out and the answer holds nothing to read.
    Done,
    /// One text.
    Text(String),
    /// Texts in the order the store gave them.
    Items(Vec<String>),
    /// Fields with their values, in the order the store gave them.
    Pairs(Vec<(String, String)>),
    /// A batch of keys with the cursor for the next batch.
    Batch(u64, Vec<String>),
}

/// The error for a reply whose shape the command sent does not have.
pub open spec fn unexpected_reply() -> ErrorView {
    ErrorView::RedisError("unexpected reply"@)
}

/// The type that the store means by the type name `name`.
pub open spec fn value_type_of(name: Seq<char>) -> RedisValueType {
    if name == "string"@ {
        RedisValueType::String
    } else if name == "list"@ {
        RedisValueType::List
    } else if name == "set"@ {
        RedisValueType::PlainSet
    } else if name == "zset"@ {
        RedisValueType::ZSet
    } else if name == "hash"@ {
        RedisValueType::Hash
    } else if name == "none"@ {
        RedisValueType::Absent
    } else {
        RedisValueType::Unknown
    }
}

/// The canonical value of a list, a set or a sorted set with these items.
pub open spec fn canonical_items(items: Seq<Seq<char>>) -> Seq<char> {
    join(items, ", "@)
}

/// How one field and its value are written in a canonical value.
pub open spec fn pair_text(pair: (Seq<char>, Seq<char>)) -> Seq<char> {
    pair.0 + ": "@ + pair.1
}

/// The canonical value of a hash with these fields.
pub open spec fn canonical_pairs(pairs: Seq<(Seq<char>, Seq<char>)>) -> Seq<char> {
    join(pairs.map_values(|pair: (Seq<char>, Seq<char>)| pair_text(pair)), ", "@)
}

/// The command that fetches the contents of an entry of type `kind`, where
/// that type has contents.
pub open spec fn fetch_command(key: Seq<char>, kind: RedisValueType) -> Option<CommandView> {
    match kind {
        RedisValueType::String => Some(CommandView::Get { key }),
        RedisValueType::List => Some(CommandView::LRange { key, start: 0, stop: -1 }),
        RedisValueType::PlainSet => Some(CommandView::SMembers { key }),
        RedisValueType::ZSet => Some(CommandView::ZRange { key, start: 0, stop: -1 }),
        RedisValueType::Hash => Some(CommandView::HGetAll { key }),
        RedisValueType::Absent => None,
        RedisValueType::Unknown => None,
    }
}

/// The canonical value that `reply` stands for as the contents of an entry
/// of type `kind`, or `None` where the reply has another shape than the
/// fetch of such an entry gives.
pub open spec fn canonical_value(kind: RedisValueType, reply: StoreReply) -> Option<Seq<char>> {
    match (kind, reply) {
        (RedisValueType::String, StoreReply::Text(text)) => Some(text@),
        (RedisValueType::List, StoreReply::Items(items)) => Some(
            canonical_items(items.deep_view()),
        ),
        (RedisValueType::PlainSet, StoreReply::Items(items)) => Some(
            canonical_items(items.deep_view()),
        ),
        (RedisValueType::ZSet, StoreReply::Items(items)) => Some(
            canonical_items(items.deep_view()),
        ),
        (RedisValueType::Hash, StoreReply::Pairs(pairs)) => Some(
            canonical_pairs(pairs.deep_view()),
        ),
        _ => None,
    }
}

/// Where the reading of one entry stands.
#[derive(Debug, Clone, Copy, PartialEq, Eq, Structural)]
pub enum ReadState {
    /// The type of the entry was asked for.
    Probing,
    /// The contents of the entry, which has the given type, were asked for.
    Fetching(RedisValueType),
}

/// What to do next while an entry is read.
#[derive(Debug, PartialEq, Eq)]
pub enum ReadStep {
    /// Send the command, and come back in the given state with the reply.
    Send(StoreCommand, ReadState),
    /// The reading has ended: with the canonical value and the type of the
    /// entry, or with the error that ended it.
    Done(Result<(String, RedisValueType), KVAdminerError>),
}

/// A `ReadStep` as a mathematical value.
pub enum ReadStepView {
    Send(CommandView, ReadState),
    Done(Result<(Seq<char>, RedisValueType), ErrorView>),
}

/// The result of reading an entry as a mathematical value.
pub open spec fn read_result_view(r: Result<(String, RedisValueType), KVAdminerError>) -> Result<
    (Seq<char>, RedisValueType),
    ErrorView,
> {
    match r {
        Ok((text, kind)) => Ok((text@, kind)),
        Err(e) => Err(e@),
    }
}

impl View for ReadStep {
    type V = ReadStepView;

    open spec fn view(&self) -> ReadStepView {
        match self {
            ReadStep::Send(command, state) => ReadStepView::Send(command@, *state),
            ReadStep::Done(r) => ReadStepView::Done(read_result_view(*r)),
        }
    }
}

/// The step that follows when `reply` arrives in `state` while the entry
/// under `key` is read.
///
/// A failure of the store ends the reading with that failure. The reply to
/// the probe names the type: a type with contents has them fetched, an
/// absent entry and an unknown type end the reading with an empty value.
/// The reply to the fetch ends the reading with the canonical value.
pub open spec fn read_step(
    key: Seq<char>,
    state: ReadState,
    reply: Result<StoreReply, KVAdminerError>,
) -> ReadStepView {
    match reply {
        Err(e) => ReadStepView::Done(Err(e@)),
        Ok(reply) => match state {
            ReadState::Probing => match reply {
                StoreReply::Text(name) => {
                    let kind = value_type_of(name@);
                    match fetch_command(key, kind) {
                        Some(command) => ReadStepView::Send(command, ReadState::Fetching(kind)),
                        None => ReadStepView::Done(Ok((Seq::<char>::empty(), kind))),
                    }
                },
                _ => ReadStepView::Done(Err(unexpected_reply())),
            },
            ReadState::Fetching(kind) => match canonical_value(kind, reply) {
                Some(text) => ReadStepView::Done(Ok((text, kind))),
                None => ReadStepView::Done(Err(unexpected_reply())),
            },
        },
    }
}

/// What is still to come of a reading that stands in `state`: the number
/// of commands that it may yet send.
pub open spec fn read_budget(state: ReadState) -> nat {
    match state {
        ReadState::Probing => 1,
        ReadState::Fetching(_) => 0,
    }
}

/// A reading ends: after the probe it sends at most one more command, and
/// the reply to that command is its last.
pub proof fn lemma_read_ends(
    key: Seq<char>,
    state: ReadState,
    reply: Result<StoreReply, KVAdminerError>,
)
    ensures
        read_step(key, state, reply) matches ReadStepView::Send(_, next) ==> read_budget(next)
            < read_budget(state),
{
}

/// The type that the store means by the type name `name`.
pub fn parse_value_type(name: &str) -> (kind: RedisValueType)
    ensures
        kind == value_type_of(name@),
{
    if same_text(name, "string") {
        RedisValueType::String
    } else if same_text(name, "list") {
        RedisValueType::List
    } else if same_text(name, "set") {
        RedisValueType::PlainSet
    } else if same_text(name, "zset") {
        RedisValueType::ZSet
    } else if same_text(name, "hash") {
        RedisValueType::Hash
    } else if same_text(name, "none") {
        RedisValueType::Absent
    } else {
        RedisValueType::Unknown
    }
}

/// The canonical value of a hash with these fields.
pub fn render_pairs(pairs: &Vec<(String, String)>) -> (text: String)
    ensures
        text@ == canonical_pairs(pairs.deep_view()),
{
    let ghost texts = pairs.deep_view().map_values(|pair: (Seq<char>, Seq<char>)| pair_text(pair));
    let mut lines: Vec<String> = Vec::new();
    let mut k: usize = 0;
    while k < pairs.len()
        invariant
            k <= pairs.len(),
            texts == pairs.deep_view().map_values(|pair: (Seq<char>, Seq<char>)| pair_text(pair)),
            lines.deep_view() == texts.take(k as int),
        decreases pairs.len() - k,
    {
        let mut line = pairs[k].0.clone();
        line.append(": ");
        line.append(pairs[k].1.as_str());
        let ghost before = lines.deep_view();
        lines.push(line);
        proof {
            assert(lines.deep_view() == before.push(line@));
            assert(texts.take(k + 1) == texts.take(k as int).push(texts[k as int]));
        }
        k += 1;
    }
    proof {
        assert(texts.take(pairs.len() as int) == texts);
    }
    join_strings(&lines, ", ")
}

/// The command that opens the reading of the entry under `key`: the probe
/// for its type. Its reply goes to `get_redis_value` in state `Probing`.
pub fn begin_read(key: &str) -> (command: StoreCommand)
    ensures
        command@ == (CommandView::Type { key: key@ }),
{
    StoreCommand::Type { key: key.to_owned() }
}

/// One step of reading the entry under `key`: takes the reply that arrived in
/// `state` and says what to do next.
pub fn get_redis_value(
    key: &str,
    state: ReadState,
    reply: Result<StoreReply, KVAdminerError>,
) -> (step: ReadStep)
    ensures
        step@ == read_step(key@, state, reply),
{
    let reply = match reply {
        Err(e) => {
            return ReadStep::Done(Err(e));
        },
        Ok(reply) => reply,
    };
    match state {
        ReadState::Probing => match reply {
            StoreReply::Text(name) => {
                let kind = parse_value_type(name.as_str());
                let key = key.to_owned();
                match kind {
                    RedisValueType::String => ReadStep::Send(
                        StoreCommand::Get { key },
                        ReadState::Fetching(kind),
                    ),
                    RedisValueType::List => ReadStep::Send(
                        StoreCommand::LRange { key, start: 0, stop: -1 },
                        ReadState::Fetching(kind),
                    ),
                    RedisValueType::PlainSet => ReadStep::Send(
                        StoreCommand::SMembers { key },
                        ReadState::Fetching(kind),
                    ),
                    RedisValueType::ZSet => ReadStep::Send(
                        StoreCommand::ZRange { key, start: 0, stop: -1 },
                        ReadState::Fetching(kind),
                    ),
                    RedisValueType::Hash => ReadStep::Send(
                        StoreCommand::HGetAll { key },
                        ReadState::Fetching(kind),
                    ),
                    RedisValueType::Absent => ReadStep::Done(Ok((String::new(), kind))),
                    RedisValueType::Unknown => ReadStep::Done(Ok((String::new(), kind))),
                }
            },
            _ => ReadStep::Done(Err(unexpected_reply_error())),
        },
        ReadState::Fetching(kind) => match (kind, reply) {
            (RedisValueType::String, StoreReply::Text(text)) => ReadStep::Done(Ok((text, kind))),
            (RedisValueType::List, StoreReply::Items(items)) => ReadStep::Done(
                Ok((join_strings(&items, ", "), kind)),
            ),
            (RedisValueType::PlainSet, StoreReply::Items(items)) => ReadStep::Done(
                Ok((join_strings(&items, ", "), kind)),
            ),
            (RedisValueType::ZSet, StoreReply::Items(items)) => ReadStep::Done(
                Ok((join_strings(&items, ", "), kind)),
            ),
            (RedisValueType::Hash, StoreReply::Pairs(pairs)) => ReadStep::Done(
                Ok((render_pairs(&pairs), kind)),
            ),
            _ => ReadStep::Done(Err(unexpected_reply_error())),
        },
    }
}

/// The error for a reply whose shape the command sent does not have.
pub fn unexpected_reply_error() -> (e: KVAdminerError)
    ensures
        e@ == unexpected_reply(),
{
    KVAdminerError::RedisError(String::from_str("unexpected reply"))
}


/// The elements that a canonical value stands for: its pieces between
/// commas, each trimmed.
pub open spec fn elements(value: Seq<char>) -> Seq<Seq<char>> {
    split_trim(value, ',')
}

/// `items`, each with its position as its rank.
pub open spec fn ranked(items: Seq<Seq<char>>) -> Seq<(u64, Seq<char>)> {
    Seq::new(items.len(), |i: int| (i as u64, items[i]))
}

/// The field that one component of a canonical value names: what stands
/// before its first colon, trimmed.
pub open spec fn field_of(component: Seq<char>) -> Seq<char> {
    trim(component.take(first_index(component, ':')))
}

/// The value that one component of a canonical value gives its field: what
/// stands behind its first colon, trimmed, and nothing where it has no colon.
pub open spec fn value_of(component: Seq<char>) -> Seq<char> {
    let colon = first_index(component, ':');
    if colon < component.len() {
        trim(component.skip(colon + 1))
    } else {
        Seq::<char>::empty()
    }
}

/// The fields with their values that a canonical value stands for, one for
/// each of its pieces between commas.
pub open spec fn field_pairs(value: Seq<char>) -> Seq<(Seq<char>, Seq<char>)> {
    split(value, ',').map_values(|component: Seq<char>| (field_of(component), value_of(component)))
}

/// Whether entries of type `kind` can be written.
pub open spec fn is_writable(kind: RedisValueType) -> bool {
    kind != RedisValueType::Absent && kind != RedisValueType::Unknown
}

/// The commands that write the canonical value `value` under `key` as an
/// entry of type `kind`, in the order in which they are to be sent.
///
/// A string is set as it is. Every other type has the old entry deleted
/// first and is then loaded with what the value stands for: a list by
/// appending its elements in order, a set by adding them, a sorted set by
/// adding them with their positions as ranks, a hash by setting its fields.
pub open spec fn write_commands(key: Seq<char>, value: Seq<char>, kind: RedisValueType) -> Seq<
    CommandView,
> {
    match kind {
        RedisValueType::String => seq![CommandView::SetString { key, value }],
        RedisValueType::List => seq![
            CommandView::Del { key },
            CommandView::RPush { key, values: elements(value) },
        ],
        RedisValueType::PlainSet => seq![
            CommandView::Del { key },
            CommandView::SAdd { key, members: elements(value) },
        ],
        RedisValueType::ZSet => seq![
            CommandView::Del { key },
            CommandView::ZAdd { key, entries: ranked(elements(value)) },
        ],
        RedisValueType::Hash => seq![
            CommandView::Del { key },
            CommandView::HSetMultiple { key, pairs: field_pairs(value) },
        ],
        RedisValueType::Absent => Seq::<CommandView>::empty(),
        RedisValueType::Unknown => Seq::<CommandView>::empty(),
    }
}

/// `items`, each with its position as its rank.
pub fn rank_items(items: Vec<String>) -> (entries: Vec<(u64, String)>)
    ensures
        entries.deep_view() == ranked(items.deep_view()),
{
    let ghost all = ranked(items.deep_view());
    let ghost given = items@;
    let mut entries: Vec<(u64, String)> = Vec::new();
    for item in it: items.into_iter()
        invariant
            it.seq() == given,
            all == ranked(given.map_values(|s: String| s@)),
            entries.len() == it.index(),
            entries.deep_view() == all.take(it.index()),
    {
        let ghost before = entries.deep_view();
        let rank = entries.len() as u64;
        entries.push((rank, item));
        proof {
            assert(entries.deep_view() == before.push((rank, item@)));
            assert(all.take(it.index() + 1) == all.take(it.index()).push(all[it.index()]));
        }
    }
    proof {
        assert(all.take(given.len() as int) == all);
    }
    entries
}

/// The elements that the canonical value `value` stands for, each with its
/// position as its rank.
pub fn ranked_elements(value: &str) -> (entries: Vec<(u64, String)>)
    ensures
        entries.deep_view() == ranked(elements(value@)),
{
    rank_items(split_trimmed(value, ','))
}

/// The fields with their values that the canonical value `value` stands for.
pub fn parse_field_pairs(value: &str) -> (pairs: Vec<(String, String)>)
    ensures
        pairs.deep_view() == field_pairs(value@),
{
    let chars = chars_of(value);
    let ranges = split_ranges(&chars, ',');
    let ghost all = field_pairs(chars@);
    let mut pairs: Vec<(String, String)> = Vec::new();
    let mut k: usize = 0;
    while k < ranges.len()
        invariant
            k <= ranges.len(),
            marks_pieces(ranges@, chars@, ','),
            all == field_pairs(chars@),
            pairs.deep_view() == all.take(k as int),
        decreases ranges.len() - k,
    {
        let (from, to) = ranges[k];
        let ghost component = chars@.subrange(from as int, to as int);
        let colon = find_char(&chars, from, to, ':');
        let field = trim_chars(&chars, from, colon);
        let value = if colon < to {
            trim_chars(&chars, colon + 1, to)
        } else {
            String::new()
        };
        let ghost before = pairs.deep_view();
        pairs.push((field, value));
        proof {
            assert(component == split(chars@, ',')[k as int]);
            assert(component.take(colon - from) == chars@.subrange(from as int, colon as int));
            if colon < to {
                assert(component.skip(colon - from + 1) == chars@.subrange(colon + 1, to as int));
            }
            assert(pairs.deep_view() == before.push((field@, value@)));
            assert(all.take(k + 1) == all.take(k as int).push(all[k as int]));
        }
        k += 1;
    }
    proof {
        assert(all.take(ranges.len() as int) == all);
    }
    pairs
}

/// The commands that write the canonical value `value` under `key` as an
/// entry of type `value_type`, in the order in which they are to be sent;
/// the writing has failed as soon as one of them fails. An entry cannot be
/// written as absent or as of unknown type.
pub fn set_redis_value(key: &str, value: &str, value_type: &RedisValueType) -> (r: Result<
    Vec<StoreCommand>,
    KVAdminerError,
>)
    ensures
        r is Ok <==> is_writable(*value_type),
        r matches Ok(plan) ==> plan.deep_view() == write_commands(key@, value@, *value_type),
        r matches Err(e) ==> e@ == ErrorView::TypeError,
{
    let mut plan: Vec<StoreCommand> = Vec::new();
    match value_type {
        RedisValueType::String => {
            plan.push(StoreCommand::SetString { key: key.to_owned(), value: value.to_owned() });
        },
        RedisValueType::List => {
            plan.push(StoreCommand::Del { key: key.to_owned() });
            let values = split_trimmed(value, ',');
            plan.push(StoreCommand::RPush { key: key.to_owned(), values });
        },
        RedisValueType::PlainSet => {
            plan.push(StoreCommand::Del { key: key.to_owned() });
            let members = split_trimmed(value, ',');
            plan.push(StoreCommand::SAdd { key: key.to_owned(), members });
        },
        RedisValueType::ZSet => {
            plan.push(StoreCommand::Del { key: key.to_owned() });
            plan.push(
                StoreCommand::ZAdd {
                    key: key.to_owned(),
                    entries: ranked_elements(value),
                },
            );
        },
        RedisValueType::Hash => {
            plan.push(StoreCommand::Del { key: key.to_owned() });
            plan.push(
                StoreCommand::HSetMultiple { key: key.to_owned(), pairs: parse_field_pairs(value) },
            );
        },
        RedisValueType::Absent => {
            return Err(KVAdminerError::TypeError);
        },
        RedisValueType::Unknown => {
            return Err(KVAdminerError::TypeError);
        },
    }
    Ok(plan)
}


/// What to do next while a plan of commands is carried out.
#[derive(Debug, PartialEq, Eq)]
pub enum WriteStep {
    /// Send the command, and come back with the reply and the commands that
    /// are still to be sent.
    Send(StoreCommand, Vec<StoreCommand>),
    /// The plan has ended: carried out in full, or with the error that
    /// ended it.
    Done(Result<(), KVAdminerError>),
}

/// A `WriteStep` as a mathematical value.
pub enum WriteStepView {
    Send(CommandView, Seq<CommandView>),
    Done(Result<(), ErrorView>),
}

impl View for WriteStep {
    type V = WriteStepView;

    open spec fn view(&self) -> WriteStepView {
        match self {
            WriteStep::Send(command, rest) => WriteStepView::Send(command@, rest.deep_view()),
            WriteStep::Done(Ok(_)) => WriteStepView::Done(Ok(())),
            WriteStep::Done(Err(e)) => WriteStepView::Done(Err(e@)),
        }
    }
}

/// The step that carries on with the commands `rest`: the first of them is
/// sent, and the plan is carried out where none is left.
pub open spec fn write_next(rest: Seq<CommandView>) -> WriteStepView {
    if rest.len() == 0 {
        WriteStepView::Done(Ok(()))
    } else {
        WriteStepView::Send(rest[0], rest.skip(1))
    }
}

/// The step that follows when `reply` arrives for a command of a plan of
/// which `rest` is still to be sent: a failure ends the plan, and nothing
/// more is sent; anything else carries on.
pub open spec fn write_step(
    rest: Seq<CommandView>,
    reply: Result<StoreReply, KVAdminerError>,
) -> WriteStepView {
    match reply {
        Err(e) => WriteStepView::Done(Err(e@)),
        Ok(_) => write_next(rest),
    }
}

/// A plan of `n` commands is carried out with `n` commands sent, each
/// step leaving one command fewer; a failure ends it at once.
pub proof fn lemma_write_ends(rest: Seq<CommandView>, reply: Result<StoreReply, KVAdminerError>)
    ensures
        write_step(rest, reply) matches WriteStepView::Send(command, left) ==> rest.len() > 0
            && command == rest[0] && left.len() == rest.len() - 1 && reply is Ok,
        reply matches Err(e) ==> write_step(rest, reply) == WriteStepView::Done(Err(e@)),
        reply is Ok && rest.len() == 0 ==> write_step(rest, reply) == WriteStepView::Done(Ok(())),
{
}

/// Begins to carry out `plan`.
pub fn begin_write(plan: Vec<StoreCommand>) -> (step: WriteStep)
    ensures
        step@ == write_next(plan.deep_view()),
{
    let mut rest = plan;
    if rest.len() == 0 {
        WriteStep::Done(Ok(()))
    } else {
        let ghost all = rest.deep_view();
        let command = rest.remove(0);
        proof {
            assert(rest.deep_view() == all.skip(1));
        }
        WriteStep::Send(command, rest)
    }
}

/// One step of carrying out a plan: takes the reply to the command sent
/// last, and the commands that are still to be sent, and says what to do
/// next.
pub fn continue_write(
    rest: Vec<StoreCommand>,
    reply: Result<StoreReply, KVAdminerError>,
) -> (step: WriteStep)
    ensures
        step@ == write_step(rest.deep_view(), reply),
{
    match reply {
        Err(e) => WriteStep::Done(Err(e)),
        Ok(_) => begin_write(rest),
    }
}

/// The command that asks for the fields of the hash under `key`. Its reply
/// goes to `get_redis_hash`.
pub fn begin_hash_read(key: &str) -> (command: StoreCommand)
    ensures
        command@ == (CommandView::HGetAll { key: key@ }),
{
    StoreCommand::HGetAll { key: key.to_owned() }
}

/// The fields of a hash with their values, as the reply to the request for
/// them gives them: a failure of the store stays what it is, and a reply
/// that holds no fields is an error.
pub fn get_redis_hash(reply: Result<StoreReply, KVAdminerError>) -> (r: Result<
    Vec<(String, String)>,
    KVAdminerError,
>)
    ensures
        match reply {
            Ok(StoreReply::Pairs(pairs)) => r == Ok::<Vec<(String, String)>, KVAdminerError>(
                pairs,
            ),
            Ok(_) => r matches Err(e) && e@ == unexpected_reply(),
            Err(failure) => r matches Err(e) && e@ == failure@,
        },
{
    match reply {
        Ok(StoreReply::Pairs(pairs)) => Ok(pairs),
        Ok(_) => Err(unexpected_reply_error()),
        Err(failure) => Err(failure),
    }
}

/// The command that gives `field` of the hash under `key` the value `value`.
pub fn set_redis_hash(key: &str, field: &str, value: &str) -> (command: StoreCommand)
    ensures
        command@ == (CommandView::HSet { key: key@, field: field@, value: value@ }),
{
    StoreCommand::HSet { key: key.to_owned(), field: field.to_owned(), value: value.to_owned() }
}

/// The command that deletes the entry under `key`.
pub fn delete_command(key: &str) -> (command: StoreCommand)
    ensures
        command@ == (CommandView::Del { key: key@ }),
{
    StoreCommand::Del { key: key.to_owned() }
}

} // verus!
