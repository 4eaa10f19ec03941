//! What a request asks for and what it is answered: the requests' fields,
//! the listing of keys page by page, and the response that each outcome
//! gets.
//!
//! Nothing here reads a request or sends a response. The caller takes the
//! fields out of the request, runs the commands against the store, and turns
//! the `Response` into the reply of its server.

use crate::errors::{ErrorView, KVAdminerError};
use crate::redis_ops::{
    begin_read, get_redis_value, read_result_view, read_step, unexpected_reply,
    unexpected_reply_error, CommandView, ReadState, ReadStep, ReadStepView, RedisValueType,
    StoreCommand, StoreReply,
};
use vstd::arithmetic::div_mod::{
    lemma_fundamental_div_mod, lemma_fundamental_div_mod_converse, lemma_mod_pos_bound,
};
use vstd::prelude::*;
use vstd::string::StringExecFns;

verus! {

/// A request to write `value` under `key` as an entry of type `value_type`.
#[derive(Debug, Clone, PartialEq, Eq)]
pub struct SetKeyRequest {
    pub key: String,
    pub value: String,
    pub value_type: RedisValueType,
}

/// A request to give `field` of the hash under `key` the value `value`.
#[derive(Debug, Clone, PartialEq, Eq)]
pub struct SetHashFieldRequest {
    pub key: String,
    pub field: String,
    pub value: String,
}

/// Which page of the keys a request asks for.
#[derive(Debug, Clone, PartialEq, Eq)]
pub struct PaginationParams {
    /// The number of the page, from 0.
    pub page: usize,
    /// The number of keys on a full page.
    pub page_size: usize,
    /// Where given, only keys that hold this text are listed.
    pub search: Option<String>,
}

/// One page of keys, each with its canonical value and its type.
#[derive(Debug, Clone, PartialEq, Eq)]
pub struct PaginatedKeys {
    pub keys: Vec<(String, String, RedisValueType)>,
    pub current_page: usize,
    pub total_pages: usize,
    pub total_keys: usize,
}

/// A `PaginatedKeys` as a mathematical value.
pub struct PageView {
    pub keys: Seq<(Seq<char>, Seq<char>, RedisValueType)>,
    pub current_page: usize,
    pub total_pages: usize,
    pub total_keys: usize,
}

impl View for PaginatedKeys {
    type V = PageView;

    open spec fn view(&self) -> PageView {
        PageView {
            keys: self.keys.deep_view(),
            current_page: self.current_page,
            total_pages: self.total_pages,
            total_keys: self.total_keys,
        }
    }
}

/// The number of keys that a scan asks the store for at a time.
pub const SCAN_COUNT: usize = 1000;

/// The pattern that the keys listed for `search` match: every key, or every
/// key that holds the text searched for.
pub open spec fn pattern_of(search: Option<String>) -> Seq<char> {
    match search {
        Some(query) => "*"@ + query@ + "*"@,
        None => "*"@,
    }
}

/// The number of pages that `total` keys fill, `page_size` to a page.
pub open spec fn page_count(total: int, page_size: int) -> int {
    (total + page_size - 1) / page_size
}

/// Where page `page` begins among `total` keys: behind the pages before it,
/// and at the end where there are no more keys.
pub open spec fn page_start(total: int, page: int, page_size: int) -> int {
    if page * page_size < total {
        page * page_size
    } else {
        total
    }
}

/// Where page `page` ends among `total` keys: `page_size` keys behind its
/// beginning, or with the last key.
pub open spec fn page_end(total: int, page: int, page_size: int) -> int {
    if page_start(total, page, page_size) + page_size < total {
        page_start(total, page, page_size) + page_size
    } else {
        total
    }
}

/// The pattern that the keys listed for `search` match.
pub fn scan_pattern(search: &Option<String>) -> (pattern: String)
    ensures
        pattern@ == pattern_of(*search),
{
    let mut pattern = String::from_str("*");
    match search {
        Some(query) => {
            pattern.append(query.as_str());
            pattern.append("*");
        },
        None => {},
    }
    pattern
}

/// The number of pages that `total` keys fill, `page_size` to a page.
pub fn total_pages(total: usize, page_size: usize) -> (pages: usize)
    requires
        page_size > 0,
    ensures
        pages == page_count(total as int, page_size as int),
{
    let full = total / page_size;
    let rest = total % page_size;
    proof {
        let t = total as int;
        let d = page_size as int;
        lemma_fundamental_div_mod(t, d);
        lemma_mod_pos_bound(t, d);
        assert(d * (t / d) == (t / d) * d) by (nonlinear_arith);
        if t % d == 0 {
            assert(t + d - 1 == (t / d) * d + (d - 1));
            lemma_fundamental_div_mod_converse(t + d - 1, d, t / d, d - 1);
        } else {
            assert((t / d + 1) * d == (t / d) * d + d) by (nonlinear_arith);
            assert(t + d - 1 == (t / d + 1) * d + (t % d - 1));
            lemma_fundamental_div_mod_converse(t + d - 1, d, t / d + 1, t % d - 1);
            lemma_page_count_fits(t, d);
        }
    }
    if rest == 0 {
        full
    } else {
        full + 1
    }
}

/// Where page `page` begins and ends among `total` keys.
pub fn page_bounds(total: usize, page: usize, page_size: usize) -> (bounds: (usize, usize))
    ensures
        bounds.0 == page_start(total as int, page as int, page_size as int),
        bounds.1 == page_end(total as int, page as int, page_size as int),
        bounds.0 <= bounds.1 <= total,
{
    let start = match page.checked_mul(page_size) {
        Some(offset) => if offset < total {
            offset
        } else {
            total
        },
        None => total,
    };
    let end = if page_size < total - start {
        start + page_size
    } else {
        total
    };
    (start, end)
}

/// The row of a listing for `key`, whose reading ended in `outcome`: the
/// canonical value and the type where the entry was read, and an empty
/// value of unknown type where it was not, so that one entry that cannot be
/// read does not end the listing.
pub open spec fn row_of(
    key: Seq<char>,
    outcome: Result<(Seq<char>, RedisValueType), ErrorView>,
) -> (Seq<char>, Seq<char>, RedisValueType) {
    match outcome {
        Ok((value, kind)) => (key, value, kind),
        Err(_) => (key, Seq::<char>::empty(), RedisValueType::Unknown),
    }
}

/// The row of a listing for `key`, whose reading ended in `outcome`.
pub fn key_row(key: &str, outcome: Result<(String, RedisValueType), KVAdminerError>) -> (row: (
    String,
    String,
    RedisValueType,
))
    ensures
        row.deep_view() == row_of(key@, read_result_view(outcome)),
{
    match outcome {
        Ok((value, kind)) => (key.to_owned(), value, kind),
        Err(_) => (key.to_owned(), String::new(), RedisValueType::Unknown),
    }
}

/// Where the listing of one page of keys stands.
///
/// A listing first gathers the keys that match its pattern, batch by batch,
/// until the store hands back the cursor it started from. It then reads the
/// entries of the keys on its page, one after the other.
pub struct KeyListing {
    pattern: String,
    page: usize,
    page_size: usize,
    keys: Vec<String>,
    rows: Vec<(String, String, RedisValueType)>,
    reading: Option<ReadState>,
}

/// A `KeyListing` as a mathematical value.
pub struct ListingView {
    /// The pattern that the keys match.
    pub pattern: Seq<char>,
    /// The number of the page, from 0.
    pub page: usize,
    /// The number of keys on a full page.
    pub page_size: usize,
    /// The keys gathered so far.
    pub keys: Seq<Seq<char>>,
    /// The rows of the page that are complete.
    pub rows: Seq<(Seq<char>, Seq<char>, RedisValueType)>,
    /// `None` while keys are gathered; while entries are read, where the
    /// reading of the key behind the complete rows stands.
    pub reading: Option<ReadState>,
}

/// What to do next while keys are listed.
pub enum ListStep {
    /// Send the command, and come back to the listing with the reply.
    Send(StoreCommand, KeyListing),
    /// The listing has ended: with the page, or with the error that ended it.
    Done(Result<PaginatedKeys, KVAdminerError>),
}

/// A `ListStep` as a mathematical value.
pub enum ListStepView {
    Send(CommandView, ListingView),
    Done(Result<PageView, ErrorView>),
}

impl View for ListStep {
    type V = ListStepView;

    open spec fn view(&self) -> ListStepView {
        match self {
            ListStep::Send(command, listing) => ListStepView::Send(command@, listing@),
            ListStep::Done(Ok(page)) => ListStepView::Done(Ok(page@)),
            ListStep::Done(Err(e)) => ListStepView::Done(Err(e@)),
        }
    }
}

impl ListingView {
    /// Where the page begins among the keys.
    pub open spec fn start(self) -> int {
        page_start(self.keys.len() as int, self.page as int, self.page_size as int)
    }

    /// Where the page ends among the keys.
    pub open spec fn end(self) -> int {
        page_end(self.keys.len() as int, self.page as int, self.page_size as int)
    }

    /// What holds of every listing: a page has room for a key; no row is
    /// complete while keys are gathered; the complete rows are those of the
    /// first keys of the page, in order; and the key that is being read is
    /// on the page.
    pub open spec fn wf(self) -> bool {
        &&& self.page_size > 0
        &&& self.keys.len() <= usize::MAX
        &&& self.reading is None ==> self.rows.len() == 0
        &&& self.reading is Some ==> self.start() + self.rows.len() < self.end()
        &&& self.start() + self.rows.len() <= self.end()
        &&& forall|i: int|
            0 <= i < self.rows.len() ==> (#[trigger] self.rows[i]).0 == self.keys[self.start() + i]
    }

    /// The page that the listing has put together.
    pub open spec fn page(self) -> PageView {
        PageView {
            keys: self.rows,
            current_page: self.page,
            total_pages: page_count(self.keys.len() as int, self.page_size as int) as usize,
            total_keys: self.keys.len() as usize,
        }
    }

    /// What follows once the rows of the listing are complete as far as
    /// they go: the reading of the next key of the page, or the page where
    /// none is left.
    pub open spec fn next_key(self) -> ListStepView {
        if self.start() + self.rows.len() < self.end() {
            ListStepView::Send(
                CommandView::Type { key: self.keys[self.start() + self.rows.len()] },
                ListingView { reading: Some(ReadState::Probing), ..self },
            )
        } else {
            ListStepView::Done(Ok(self.page()))
        }
    }

    /// The step that follows when `reply` arrives.
    ///
    /// While keys are gathered, a batch is put behind the keys; a cursor
    /// other than 0 asks for the next batch, the cursor 0 ends the gathering.
    /// A failure of the store, and a reply that is no batch, end the listing
    /// with an error. While entries are read, the reply goes to the reading
    /// of the key at hand, which either goes on or ends; however it ends, it
    /// completes the row of that key.
    pub open spec fn step(self, reply: Result<StoreReply, KVAdminerError>) -> ListStepView {
        match self.reading {
            None => match reply {
                Err(e) => ListStepView::Done(Err(e@)),
                Ok(StoreReply::Batch(cursor, batch)) => {
                    let gathered = ListingView { keys: self.keys + batch.deep_view(), ..self };
                    if cursor != 0 {
                        ListStepView::Send(
                            CommandView::Scan {
                                cursor,
                                pattern: self.pattern,
                                count: SCAN_COUNT,
                            },
                            gathered,
                        )
                    } else {
                        gathered.next_key()
                    }
                },
                Ok(_) => ListStepView::Done(Err(unexpected_reply())),
            },
            Some(state) => {
                let key = self.keys[self.start() + self.rows.len()];
                match read_step(key, state, reply) {
                    ReadStepView::Send(command, next) => ListStepView::Send(
                        command,
                        ListingView { reading: Some(next), ..self },
                    ),
                    ReadStepView::Done(outcome) => ListingView {
                        rows: self.rows.push(row_of(key, outcome)),
                        reading: None,
                        ..self
                    }.next_key(),
                }
            },
        }
    }
}

/// The listing that begins for `params`: nothing gathered, nothing read.
pub open spec fn initial_listing(params: &PaginationParams) -> ListingView {
    ListingView {
        pattern: pattern_of(params.search),
        page: params.page,
        page_size: params.page_size,
        keys: Seq::empty(),
        rows: Seq::empty(),
        reading: None,
    }
}

impl View for KeyListing {
    type V = ListingView;

    closed spec fn view(&self) -> ListingView {
        ListingView {
            pattern: self.pattern@,
            page: self.page,
            page_size: self.page_size,
            keys: self.keys.deep_view(),
            rows: self.rows.deep_view(),
            reading: self.reading,
        }
    }
}

impl KeyListing {
    #[verifier::type_invariant]
    spec fn well_formed(self) -> bool {
        self@.wf()
    }

    /// Begins the listing of the page that `params` asks for: the command
    /// to send first, and the listing to come back to with its reply.
    pub fn begin(params: &PaginationParams) -> (r: (StoreCommand, KeyListing))
        requires
            params.page_size > 0,
        ensures
            r.0@ == (CommandView::Scan {
                cursor: 0,
                pattern: pattern_of(params.search),
                count: SCAN_COUNT,
            }),
            r.1@ == initial_listing(params),
    {
        let listing = KeyListing {
            pattern: scan_pattern(&params.search),
            page: params.page,
            page_size: params.page_size,
            keys: Vec::new(),
            rows: Vec::new(),
            reading: None,
        };
        let command = StoreCommand::Scan {
            cursor: 0,
            pattern: listing.pattern.clone(),
            count: SCAN_COUNT,
        };
        proof {
            assert(listing.keys.deep_view() == Seq::<Seq<char>>::empty());
            assert(listing.rows.deep_view() == Seq::<
                (Seq<char>, Seq<char>, RedisValueType),
            >::empty());
        }
        (command, listing)
    }

    /// One step of the listing: takes the reply to the command sent last
    /// and says what to do next.
    pub fn advance(self, reply: Result<StoreReply, KVAdminerError>) -> (step: ListStep)
        ensures
            step@ == self@.step(reply),
    {
        proof {
            use_type_invariant(&self);
        }
        let KeyListing { pattern, page, page_size, keys, rows, reading } = self;
        match reading {
            None => match reply {
                Err(e) => ListStep::Done(Err(e)),
                Ok(StoreReply::Batch(cursor, batch)) => {
                    let mut keys = keys;
                    let mut batch = batch;
                    let ghost had = keys.deep_view();
                    let ghost came = batch.deep_view();
                    keys.append(&mut batch);
                    proof {
                        assert(keys.deep_view() == had + came);
                        assert(keys.deep_view().len() == keys.len());
                    }
                    if cursor != 0 {
                        let command = StoreCommand::Scan {
                            cursor,
                            pattern: pattern.clone(),
                            count: SCAN_COUNT,
                        };
                        ListStep::Send(
                            command,
                            KeyListing { pattern, page, page_size, keys, rows, reading: None },
                        )
                    } else {
                        next_key(pattern, page, page_size, keys, rows)
                    }
                },
                Ok(_) => ListStep::Done(Err(unexpected_reply_error())),
            },
            Some(state) => {
                let (start, _) = page_bounds(keys.len(), page, page_size);
                let at = start + rows.len();
                match get_redis_value(keys[at].as_str(), state, reply) {
                    ReadStep::Send(command, next) => ListStep::Send(
                        command,
                        KeyListing { pattern, page, page_size, keys, rows, reading: Some(next) },
                    ),
                    ReadStep::Done(outcome) => {
                        let mut rows = rows;
                        let ghost had = rows.deep_view();
                        let row = key_row(keys[at].as_str(), outcome);
                        rows.push(row);
                        proof {
                            assert(rows.deep_view() == had.push(row.deep_view()));
                        }
                        next_key(pattern, page, page_size, keys, rows)
                    },
                }
            },
        }
    }
}

/// What follows once `rows` are complete as far as they go.
fn next_key(
    pattern: String,
    page: usize,
    page_size: usize,
    keys: Vec<String>,
    rows: Vec<(String, String, RedisValueType)>,
) -> (step: ListStep)
    requires
        page_size > 0,
        page_start(keys.len() as int, page as int, page_size as int) + rows.len() <= page_end(
            keys.len() as int,
            page as int,
            page_size as int,
        ),
        forall|i: int|
            0 <= i < rows.len() ==> (#[trigger] rows.deep_view()[i]).0 == keys.deep_view()[page_start(
                keys.len() as int,
                page as int,
                page_size as int,
            ) + i],
    ensures
        step@ == (ListingView {
            pattern: pattern@,
            page,
            page_size,
            keys: keys.deep_view(),
            rows: rows.deep_view(),
            reading: None,
        }).next_key(),
{
    let (start, end) = page_bounds(keys.len(), page, page_size);
    let at = start + rows.len();
    if at < end {
        let command = begin_read(keys[at].as_str());
        ListStep::Send(
            command,
            KeyListing { pattern, page, page_size, keys, rows, reading: Some(ReadState::Probing) },
        )
    } else {
        let total_keys = keys.len();
        ListStep::Done(
            Ok(
                PaginatedKeys {
                    keys: rows,
                    current_page: page,
                    total_pages: total_pages(total_keys, page_size),
                    total_keys,
                },
            ),
        )
    }
}


/// Whether `page` is page `number` of `keys`, `page_size` to a page: it
/// counts the keys and the pages, and its rows are those of the keys from
/// where the page begins to where it ends, in order.
pub open spec fn is_page_of(
    page: PageView,
    keys: Seq<Seq<char>>,
    number: usize,
    page_size: usize,
) -> bool {
    let start = page_start(keys.len() as int, number as int, page_size as int);
    let end = page_end(keys.len() as int, number as int, page_size as int);
    &&& page.current_page == number
    &&& page.total_keys == keys.len()
    &&& page.total_pages == page_count(keys.len() as int, page_size as int)
    &&& page.keys.len() == end - start
    &&& forall|i: int| 0 <= i < page.keys.len() ==> (#[trigger] page.keys[i]).0 == keys[start + i]
}

/// The keys that a listing has gathered once `reply` has arrived.
pub open spec fn keys_after(listing: ListingView, reply: Result<StoreReply, KVAdminerError>) -> Seq<
    Seq<char>,
> {
    match (listing.reading, reply) {
        (None, Ok(StoreReply::Batch(_, batch))) => listing.keys + batch.deep_view(),
        _ => listing.keys,
    }
}

/// The pages lie one behind the other from the first key on, none holds
/// more than `page_size` keys, every page before the last is full, and the
/// pages that hold a key are those that the page count counts.
pub proof fn lemma_pages_cover_keys(total: int, page: int, page_size: int)
    requires
        total >= 0,
        page >= 0,
        page_size > 0,
    ensures
        page_start(total, 0, page_size) == 0,
        page_start(total, page, page_size) <= page_end(total, page, page_size) <= total,
        page_end(total, page, page_size) == page_start(total, page + 1, page_size),
        page_end(total, page, page_size) - page_start(total, page, page_size) <= page_size,
        page + 1 < page_count(total, page_size) ==> page_end(total, page, page_size) - page_start(
            total,
            page,
            page_size,
        ) == page_size,
        page < page_count(total, page_size) <==> page_start(total, page, page_size) < page_end(
            total,
            page,
            page_size,
        ),
{
    assert((page + 1) * page_size == page * page_size + page_size) by (nonlinear_arith);
    lemma_page_count(total, page, page_size);
    lemma_page_count(total, page + 1, page_size);
}

/// A page is counted if and only if a key stands where it begins.
proof fn lemma_page_count(total: int, page: int, page_size: int)
    requires
        total >= 0,
        page >= 0,
        page_size > 0,
    ensures
        page < page_count(total, page_size) <==> page * page_size < total,
{
    let count = page_count(total, page_size);
    let rest = (total + page_size - 1) % page_size;
    lemma_fundamental_div_mod(total + page_size - 1, page_size);
    lemma_mod_pos_bound(total + page_size - 1, page_size);
    assert(page_size * count == count * page_size) by (nonlinear_arith);
    assert(total + page_size - 1 == count * page_size + rest);
    if page < count {
        assert((page + 1) * page_size <= count * page_size) by (nonlinear_arith)
            requires
                page + 1 <= count,
                page_size > 0,
        ;
        assert((page + 1) * page_size == page * page_size + page_size) by (nonlinear_arith);
    } else {
        assert(page * page_size >= count * page_size) by (nonlinear_arith)
            requires
                page >= count,
                page_size > 0,
        ;
    }
}

/// A well-formed listing stays well formed with every step, on the page
/// and with the pattern it began with; while it reads entries, its keys stay
/// as they are and no row is lost; and the page that it ends with is the
/// page that was asked for, of the keys that it gathered.
pub proof fn lemma_listing_steps(listing: ListingView, reply: Result<StoreReply, KVAdminerError>)
    requires
        listing.wf(),
        keys_after(listing, reply).len() <= usize::MAX,
    ensures
        match listing.step(reply) {
            ListStepView::Send(_, next) => {
                &&& next.wf()
                &&& next.pattern == listing.pattern
                &&& next.page == listing.page
                &&& next.page_size == listing.page_size
                &&& next.keys == keys_after(listing, reply)
                &&& next.rows.len() >= listing.rows.len()
            },
            ListStepView::Done(Ok(page)) => is_page_of(
                page,
                keys_after(listing, reply),
                listing.page,
                listing.page_size,
            ),
            ListStepView::Done(Err(_)) => true,
        },
{
    let keys = keys_after(listing, reply);
    lemma_pages_cover_keys(keys.len() as int, listing.page as int, listing.page_size as int);
    lemma_page_count_fits(keys.len() as int, listing.page_size as int);
}

/// There are no more pages than keys.
proof fn lemma_page_count_fits(total: int, page_size: int)
    requires
        total >= 0,
        page_size > 0,
    ensures
        0 <= page_count(total, page_size) <= total,
{
    lemma_page_count(total, total, page_size);
    assert(total * page_size >= total) by (nonlinear_arith)
        requires
            total >= 0,
            page_size >= 1,
    ;
    if page_count(total, page_size) < 0 {
        lemma_page_count(total, 0, page_size);
        assert(0 * page_size == 0) by (nonlinear_arith);
    }
}

impl ListingView {
    /// How many commands a listing that reads entries may yet send: two
    /// for each key of the page whose row is not complete, less the one
    /// that is under way, and less the probe where it has been answered.
    pub open spec fn budget(self) -> int {
        2 * (self.end() - self.start() - self.rows.len()) - match self.reading {
            Some(ReadState::Probing) => 1int,
            Some(ReadState::Fetching(_)) => 2int,
            None => 0int,
        }
    }
}

/// Once the keys are gathered the listing ends: every command that is sent
/// while entries are read leaves fewer to send. How many batches the
/// gathering takes is for the store to say, which ends it with the cursor 0.
pub proof fn lemma_listing_ends(listing: ListingView, reply: Result<StoreReply, KVAdminerError>)
    requires
        listing.wf(),
        listing.reading is Some,
    ensures
        listing.budget() >= 0,
        listing.step(reply) matches ListStepView::Send(_, next) ==> 0 <= next.budget()
            < listing.budget(),
{
    lemma_pages_cover_keys(
        listing.keys.len() as int,
        listing.page as int,
        listing.page_size as int,
    );
}

/// An entry that cannot be read does not end the listing: where the store
/// fails while the entry of a key is read, the row of that key is complete
/// with an empty value of unknown type, and the listing goes on to the next
/// key, or ends with its page.
pub proof fn lemma_failed_read_is_listed(listing: ListingView, failure: KVAdminerError)
    requires
        listing.wf(),
        listing.reading is Some,
    ensures
        ({
            let key = listing.keys[listing.start() + listing.rows.len()];
            let rows = listing.rows.push((key, Seq::<char>::empty(), RedisValueType::Unknown));
            match listing.step(Err(failure)) {
                ListStepView::Send(_, next) => next.rows == rows && next.reading == Some(
                    ReadState::Probing,
                ),
                ListStepView::Done(Ok(page)) => page.keys == rows,
                ListStepView::Done(Err(_)) => false,
            }
        }),
{
}

/// The listing that begins for a page size above 0 is well formed.
pub proof fn lemma_listing_begins(params: &PaginationParams)
    requires
        params.page_size > 0,
    ensures
        initial_listing(params).wf(),
{
    lemma_pages_cover_keys(0, params.page as int, params.page_size as int);
}

/// What a response carries.
#[derive(Debug, Clone, PartialEq, Eq)]
pub enum ResponseBody {
    /// A message.
    Text(String),
    /// The canonical value and the type of an entry.
    Value(String, RedisValueType),
    /// The fields of a hash with their values.
    Fields(Vec<(String, String)>),
    /// One page of keys.
    Keys(PaginatedKeys),
}

/// The answer to a request.
#[derive(Debug, Clone, PartialEq, Eq)]
pub struct Response {
    /// The HTTP status.
    pub status: u16,
    /// The session that the response names to the client, which is to keep
    /// it; an error response names none.
    pub session_id: Option<String>,
    pub body: ResponseBody,
}

/// A `ResponseBody` as a mathematical value.
pub enum BodyView {
    Text(Seq<char>),
    Value(Seq<char>, RedisValueType),
    Fields(Seq<(Seq<char>, Seq<char>)>),
    Keys(PageView),
}

/// A `Response` as a mathematical value.
pub struct ResponseView {
    pub status: u16,
    pub session_id: Option<Seq<char>>,
    pub body: BodyView,
}

impl View for ResponseBody {
    type V = BodyView;

    open spec fn view(&self) -> BodyView {
        match self {
            ResponseBody::Text(text) => BodyView::Text(text@),
            ResponseBody::Value(value, kind) => BodyView::Value(value@, *kind),
            ResponseBody::Fields(fields) => BodyView::Fields(fields.deep_view()),
            ResponseBody::Keys(page) => BodyView::Keys(page@),
        }
    }
}

impl View for Response {
    type V = ResponseView;

    open spec fn view(&self) -> ResponseView {
        ResponseView {
            status: self.status,
            session_id: match self.session_id {
                Some(id) => Some(id@),
                None => None,
            },
            body: self.body@,
        }
    }
}

/// The status of a response to a request that was carried out.
pub const STATUS_OK: u16 = 200;

/// The status of a response to a request that failed.
pub const STATUS_FAILED: u16 = 500;

/// The response that says `text` to session `session_id`.
pub open spec fn message_response(
    status: u16,
    session_id: Seq<char>,
    text: Seq<char>,
) -> ResponseView {
    ResponseView { status, session_id: Some(session_id), body: BodyView::Text(text) }
}

/// The response that reports the error `e`: it names no session, and its
/// body is the store's message, or says what else went wrong.
pub open spec fn error_response_of(e: ErrorView) -> ResponseView {
    ResponseView { status: STATUS_FAILED, session_id: None, body: BodyView::Text(e.body()) }
}

/// The response to a request that either was carried out, which `done`
/// says, or failed, which `failed` says.
pub open spec fn outcome_response(
    session_id: Seq<char>,
    carried_out: bool,
    done: Seq<char>,
    failed: Seq<char>,
) -> ResponseView {
    if carried_out {
        message_response(STATUS_OK, session_id, done)
    } else {
        message_response(STATUS_FAILED, session_id, failed)
    }
}

impl KVAdminerError {
    /// The response that reports the error.
    pub fn error_response(&self) -> (response: Response)
        ensures
            response@ == error_response_of(self@),
    {
        let text = match self {
            KVAdminerError::RedisError(err) => err.clone(),
            KVAdminerError::InvalidRedisUrl => String::from_str("Invalid Redis URL"),
            KVAdminerError::TypeError => String::from_str("Type Error"),
        };
        Response { status: STATUS_FAILED, session_id: None, body: ResponseBody::Text(text) }
    }
}

/// The response that says `done` where `carried_out`, and `failed` where not.
fn respond(session_id: String, carried_out: bool, done: &str, failed: &str) -> (response: Response)
    ensures
        response@ == outcome_response(session_id@, carried_out, done@, failed@),
{
    if carried_out {
        Response {
            status: STATUS_OK,
            session_id: Some(session_id),
            body: ResponseBody::Text(done.to_owned()),
        }
    } else {
        Response {
            status: STATUS_FAILED,
            session_id: Some(session_id),
            body: ResponseBody::Text(failed.to_owned()),
        }
    }
}

/// The response to the request for the entry of a key, whose reading ended
/// in `outcome`.
pub fn get_key(
    session_id: String,
    outcome: Result<(String, RedisValueType), KVAdminerError>,
) -> (response: Response)
    ensures
        response@ == match outcome {
            Ok((value, kind)) => ResponseView {
                status: STATUS_OK,
                session_id: Some(session_id@),
                body: BodyView::Value(value@, kind),
            },
            Err(e) => error_response_of(e@),
        },
{
    match outcome {
        Ok((value, kind)) => Response {
            status: STATUS_OK,
            session_id: Some(session_id),
            body: ResponseBody::Value(value, kind),
        },
        Err(e) => e.error_response(),
    }
}

/// The response to the request to write an entry, which ended in `outcome`.
pub fn set_key(session_id: String, outcome: Result<(), KVAdminerError>) -> (response: Response)
    ensures
        response@ == outcome_response(
            session_id@,
            outcome is Ok,
            "Key set successfully"@,
            "Failed to set key"@,
        ),
{
    respond(session_id, outcome.is_ok(), "Key set successfully", "Failed to set key")
}

/// The response to the request for the fields of a hash, whose reading
/// ended in `outcome`.
pub fn get_hash(
    session_id: String,
    outcome: Result<Vec<(String, String)>, KVAdminerError>,
) -> (response: Response)
    ensures
        response@ == match outcome {
            Ok(fields) => ResponseView {
                status: STATUS_OK,
                session_id: Some(session_id@),
                body: BodyView::Fields(fields.deep_view()),
            },
            Err(e) => error_response_of(e@),
        },
{
    match outcome {
        Ok(fields) => Response {
            status: STATUS_OK,
            session_id: Some(session_id),
            body: ResponseBody::Fields(fields),
        },
        Err(e) => e.error_response(),
    }
}

/// The response to the request to set a field of a hash, which ended in
/// `outcome`.
pub fn set_hash(session_id: String, outcome: Result<(), KVAdminerError>) -> (response: Response)
    ensures
        response@ == outcome_response(
            session_id@,
            outcome is Ok,
            "Hash field set successfully"@,
            "Failed to set hash field"@,
        ),
{
    respond(session_id, outcome.is_ok(), "Hash field set successfully", "Failed to set hash field")
}

/// The response to the request to delete a key, which ended in `outcome`.
pub fn delete_key(session_id: String, outcome: Result<(), KVAdminerError>) -> (response: Response)
    ensures
        response@ == outcome_response(
            session_id@,
            outcome is Ok,
            "Key deleted successfully"@,
            "Failed to delete key"@,
        ),
{
    respond(session_id, outcome.is_ok(), "Key deleted successfully", "Failed to delete key")
}

/// The response to the request for a page of keys, whose listing ended in
/// `outcome`.
pub fn list_keys(
    session_id: String,
    outcome: Result<PaginatedKeys, KVAdminerError>,
) -> (response: Response)
    ensures
        response@ == match outcome {
            Ok(page) => ResponseView {
                status: STATUS_OK,
                session_id: Some(session_id@),
                body: BodyView::Keys(page@),
            },
            Err(e) => error_response_of(e@),
        },
{
    match outcome {
        Ok(page) => Response {
            status: STATUS_OK,
            session_id: Some(session_id),
            body: ResponseBody::Keys(page),
        },
        Err(e) => e.error_response(),
    }
}

} // verus!
