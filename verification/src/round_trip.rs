//! What reading gives back of what was written: the laws that tie the
//! canonical value that a write takes apart to the canonical value that a
//! read puts together.
//!
//! The store stands between the two. Each law says what it takes the store
//! to have answered, and holds of every such answer.

use crate::errors::KVAdminerError;
use crate::redis_ops::{
    canonical_items, canonical_pairs, elements, field_of, field_pairs, pair_text, ranked,
    read_step, value_of, write_commands, CommandView, ReadState, ReadStepView, RedisValueType,
    StoreReply,
};
use crate::text::{
    all_free_of, all_trimmed, first_index, is_space, is_trimmed, lemma_first_index,
    lemma_first_index_bounds, lemma_joined_free, lemma_part_free, lemma_split_join,
    lemma_split_pieces, lemma_split_trim_join, lemma_split_trim_pieces, lemma_trim_padded,
    lemma_trim_result, padded, split,
};
use vstd::prelude::*;

verus! {

/// The separator of canonical values is a comma and a blank.
proof fn lemma_separator()
    ensures
        ", "@ == seq![','] + seq![' '],
        ": "@ == seq![':'] + seq![' '],
        is_space(' '),
        !is_space(','),
        !is_space(':'),
{
    reveal_strlit(", ");
    reveal_strlit(": ");
    assert(", "@ =~= seq![','] + seq![' ']);
    assert(": "@ =~= seq![':'] + seq![' ']);
}

/// The elements of a canonical value are trimmed and hold no comma, and
/// there is at least one.
pub proof fn lemma_elements(value: Seq<char>)
    ensures
        elements(value).len() >= 1,
        all_free_of(elements(value), ','),
        all_trimmed(elements(value)),
{
    lemma_split_trim_pieces(value, ',');
}

/// The canonical value of items that are trimmed and hold no comma stands
/// for those items, in their order.
pub proof fn lemma_items_round_trip(items: Seq<Seq<char>>)
    requires
        items.len() >= 1,
        all_free_of(items, ','),
        all_trimmed(items),
    ensures
        elements(canonical_items(items)) == items,
{
    lemma_separator();
    lemma_split_trim_join(items, ',', seq![' ']);
}

/// A list comes back as it was written. The write deletes the entry and
/// appends the elements of the value in order; where the store answers the
/// fetch with those elements in that order, the read ends with a list whose
/// canonical value has the same elements in the same order.
pub proof fn lemma_list_round_trip(key: Seq<char>, value: Seq<char>, items: Vec<String>)
    requires
        items.deep_view() == elements(value),
    ensures
        write_commands(key, value, RedisValueType::List) == seq![
            CommandView::Del { key },
            CommandView::RPush { key, values: elements(value) },
        ],
        read_step(
            key,
            ReadState::Fetching(RedisValueType::List),
            Ok::<StoreReply, KVAdminerError>(StoreReply::Items(items)),
        ) == ReadStepView::Done(Ok((canonical_items(elements(value)), RedisValueType::List))),
        elements(canonical_items(elements(value))) == elements(value),
{
    lemma_elements(value);
    lemma_items_round_trip(elements(value));
}

/// A set comes back with the members it was written with. The write deletes
/// the entry and adds the elements of the value; where the store answers
/// the fetch with those members, in whatever order and however often it
/// gives each, the read ends with a set whose canonical value has the same
/// elements as the value, as a set.
pub proof fn lemma_set_round_trip(key: Seq<char>, value: Seq<char>, items: Vec<String>)
    requires
        items.deep_view().to_set() == elements(value).to_set(),
    ensures
        write_commands(key, value, RedisValueType::PlainSet) == seq![
            CommandView::Del { key },
            CommandView::SAdd { key, members: elements(value) },
        ],
        read_step(
            key,
            ReadState::Fetching(RedisValueType::PlainSet),
            Ok::<StoreReply, KVAdminerError>(StoreReply::Items(items)),
        ) == ReadStepView::Done(
            Ok((canonical_items(items.deep_view()), RedisValueType::PlainSet)),
        ),
        elements(canonical_items(items.deep_view())).to_set() == elements(value).to_set(),
{
    let written = elements(value);
    let given = items.deep_view();
    lemma_elements(value);
    assert(written.to_set().contains(written[0]));
    assert(given.len() >= 1) by {
        assert(given.to_set().contains(written[0]));
    }
    assert forall|i: int| 0 <= i < given.len() implies !(#[trigger] given[i]).contains(',')
        && is_trimmed(given[i]) by {
        assert(given.to_set().contains(given[i]));
        assert(written.to_set().contains(given[i]));
        let k = choose|k: int| 0 <= k < written.len() && written[k] == given[i];
        assert(!written[k].contains(',') && is_trimmed(written[k]));
    }
    lemma_items_round_trip(given);
}

/// The ranks that a write gives the elements of a sorted set rise with
/// their positions.
pub proof fn lemma_ranks_rise(items: Seq<Seq<char>>)
    requires
        items.len() <= u64::MAX,
    ensures
        ranked(items).len() == items.len(),
        forall|i: int|
            0 <= i < items.len() ==> (#[trigger] ranked(items)[i]) == (i as u64, items[i]),
        forall|i: int, j: int|
            0 <= i < j < items.len() ==> (#[trigger] ranked(items)[i]).0 < (#[trigger] ranked(
                items,
            )[j]).0,
{
}

/// The rank that `member` has once `entries` were added to a sorted set,
/// one after the other: the rank of the last entry that names it.
pub open spec fn last_rank(entries: Seq<(u64, Seq<char>)>, member: Seq<char>) -> Option<u64>
    decreases entries.len(),
{
    if entries.len() == 0 {
        None
    } else if entries.last().1 == member {
        Some(entries.last().0)
    } else {
        last_rank(entries.drop_last(), member)
    }
}

/// Whether `items` are what a sorted set holds once `entries` were added to
/// an empty one: each member once, by rising rank.
pub open spec fn is_sorted_set_of(items: Seq<Seq<char>>, entries: Seq<(u64, Seq<char>)>) -> bool {
    &&& items.no_duplicates()
    &&& forall|member: Seq<char>|
        items.contains(member) <==> (#[trigger] last_rank(entries, member)) is Some
    &&& forall|a: int, b: int|
        0 <= a < b < items.len() ==> last_rank(entries, #[trigger] items[a])->0 < last_rank(
            entries,
            #[trigger] items[b],
        )->0
}

/// Among elements without repetition, ranked by position, each has its
/// position as its rank, and nothing else has a rank.
proof fn lemma_last_rank(items: Seq<Seq<char>>, count: int, member: Seq<char>)
    requires
        items.no_duplicates(),
        0 <= count <= items.len() <= u64::MAX,
    ensures
        last_rank(ranked(items).take(count), member) is Some <==> exists|i: int|
            0 <= i < count && #[trigger] items[i] == member,
        forall|i: int|
            0 <= i < count && #[trigger] items[i] == member ==> last_rank(
                ranked(items).take(count),
                member,
            ) == Some(i as u64),
    decreases count,
{
    if count > 0 {
        let entries = ranked(items).take(count);
        assert(entries.drop_last() == ranked(items).take(count - 1));
        assert(entries.last() == ((count - 1) as u64, items[count - 1]));
        lemma_last_rank(items, count - 1, member);
        if items[count - 1] != member {
            if exists|i: int| 0 <= i < count && #[trigger] items[i] == member {
                let i = choose|i: int| 0 <= i < count && #[trigger] items[i] == member;
                assert(i < count - 1);
            }
        }
    }
}

/// Where members without repetition are listed by a rank that is their
/// position among as many elements, each stands at its position.
proof fn lemma_sorted_by_position(items: Seq<Seq<char>>, written: Seq<Seq<char>>, at: int)
    requires
        items.no_duplicates(),
        written.no_duplicates(),
        items.len() == written.len(),
        forall|a: int| 0 <= a < items.len() ==> written.contains(#[trigger] items[a]),
        forall|a: int, b: int|
            0 <= a < b < items.len() ==> written.index_of(#[trigger] items[a]) < written.index_of(
                #[trigger] items[b],
            ),
        0 <= at < items.len(),
    ensures
        written.index_of(items[at]) == at,
{
    lemma_position_from_below(items, written, at);
    lemma_position_from_above(items, written, at);
}

proof fn lemma_position_from_below(items: Seq<Seq<char>>, written: Seq<Seq<char>>, at: int)
    requires
        items.len() == written.len(),
        forall|a: int| 0 <= a < items.len() ==> written.contains(#[trigger] items[a]),
        forall|a: int, b: int|
            0 <= a < b < items.len() ==> written.index_of(#[trigger] items[a]) < written.index_of(
                #[trigger] items[b],
            ),
        0 <= at < items.len(),
    ensures
        at <= written.index_of(items[at]) < written.len(),
    decreases at,
{
    assert(written.contains(items[at]));
    if at > 0 {
        lemma_position_from_below(items, written, at - 1);
        assert(written.index_of(items[at - 1]) < written.index_of(items[at]));
    }
}

proof fn lemma_position_from_above(items: Seq<Seq<char>>, written: Seq<Seq<char>>, at: int)
    requires
        items.len() == written.len(),
        forall|a: int| 0 <= a < items.len() ==> written.contains(#[trigger] items[a]),
        forall|a: int, b: int|
            0 <= a < b < items.len() ==> written.index_of(#[trigger] items[a]) < written.index_of(
                #[trigger] items[b],
            ),
        0 <= at < items.len(),
    ensures
        0 <= written.index_of(items[at]) <= at,
    decreases items.len() - at,
{
    assert(written.contains(items[at]));
    if at < items.len() - 1 {
        lemma_position_from_above(items, written, at + 1);
        assert(written.index_of(items[at]) < written.index_of(items[at + 1]));
    }
}

/// A sorted set holds the elements that were added to it with their
/// positions as ranks in the order of those elements, where none of them is
/// repeated.
pub proof fn lemma_sorted_set_keeps_order(items: Seq<Seq<char>>, written: Seq<Seq<char>>)
    requires
        written.no_duplicates(),
        written.len() <= u64::MAX,
        is_sorted_set_of(items, ranked(written)),
    ensures
        items == written,
{
    let entries = ranked(written);
    assert(entries.take(written.len() as int) == entries);
    assert forall|member: Seq<char>| items.contains(member) <==> written.contains(member) by {
        lemma_last_rank(written, written.len() as int, member);
        assert(items.contains(member) <==> last_rank(entries, member) is Some);
    }
    assert(items.to_set() =~= written.to_set());
    items.unique_seq_to_set();
    written.unique_seq_to_set();
    assert forall|a: int| 0 <= a < items.len() implies written.contains(#[trigger] items[a]) by {
        assert(items.contains(items[a]));
    }
    assert forall|a: int| 0 <= a < items.len() implies last_rank(entries, #[trigger] items[a])
        == Some(written.index_of(items[a]) as u64) by {
        assert(items.contains(items[a]));
        lemma_last_rank(written, written.len() as int, items[a]);
    }
    assert forall|a: int, b: int| 0 <= a < b < items.len() implies written.index_of(
        #[trigger] items[a],
    ) < written.index_of(#[trigger] items[b]) by {
        assert(written.contains(items[a]) && written.contains(items[b]));
        assert(last_rank(entries, items[a])->0 < last_rank(entries, items[b])->0);
    }
    assert forall|a: int| 0 <= a < items.len() implies items[a] == written[a] by {
        lemma_sorted_by_position(items, written, a);
    }
    assert(items =~= written);
}

/// Elements without repetition, in the order they were added in with their
/// positions as ranks, are what the sorted set then holds.
pub proof fn lemma_written_order_is_sorted(written: Seq<Seq<char>>)
    requires
        written.no_duplicates(),
        written.len() <= u64::MAX,
    ensures
        is_sorted_set_of(written, ranked(written)),
{
    let entries = ranked(written);
    assert(entries.take(written.len() as int) == entries);
    assert forall|member: Seq<char>|
        written.contains(member) <==> (#[trigger] last_rank(entries, member)) is Some by {
        lemma_last_rank(written, written.len() as int, member);
    }
    assert forall|a: int, b: int| 0 <= a < b < written.len() implies last_rank(
        entries,
        #[trigger] written[a],
    )->0 < last_rank(entries, #[trigger] written[b])->0 by {
        lemma_last_rank(written, written.len() as int, written[a]);
        lemma_last_rank(written, written.len() as int, written[b]);
    }
}

/// A sorted set without repeated elements comes back in the order it was
/// written in. The write deletes the entry and adds the elements of the
/// value with their positions as ranks; where the store answers the fetch
/// with what the sorted set then holds, each member once and by rising
/// rank, the read ends with a sorted set whose canonical value has the same
/// elements in the same order.
pub proof fn lemma_sorted_set_round_trip(key: Seq<char>, value: Seq<char>, items: Vec<String>)
    requires
        elements(value).no_duplicates(),
        elements(value).len() <= u64::MAX,
        is_sorted_set_of(items.deep_view(), ranked(elements(value))),
    ensures
        write_commands(key, value, RedisValueType::ZSet) == seq![
            CommandView::Del { key },
            CommandView::ZAdd { key, entries: ranked(elements(value)) },
        ],
        read_step(
            key,
            ReadState::Fetching(RedisValueType::ZSet),
            Ok::<StoreReply, KVAdminerError>(StoreReply::Items(items)),
        ) == ReadStepView::Done(Ok((canonical_items(elements(value)), RedisValueType::ZSet))),
        elements(canonical_items(elements(value))) == elements(value),
{
    let written = elements(value);
    lemma_sorted_set_keeps_order(items.deep_view(), written);
    lemma_elements(value);
    lemma_items_round_trip(written);
}

/// Whether a hash with these fields can be told from its canonical value:
/// there is a field, every field and value is trimmed and holds no comma,
/// and no field holds a colon.
pub open spec fn is_legible(pairs: Seq<(Seq<char>, Seq<char>)>) -> bool {
    &&& pairs.len() >= 1
    &&& forall|i: int|
        0 <= i < pairs.len() ==> {
            &&& is_trimmed((#[trigger] pairs[i]).0)
            &&& is_trimmed(pairs[i].1)
            &&& !pairs[i].0.contains(',')
            &&& !pairs[i].0.contains(':')
            &&& !pairs[i].1.contains(',')
        }
}

/// The canonical value of a legible hash stands for its fields with their
/// values, in their order.
pub proof fn lemma_pairs_round_trip(pairs: Seq<(Seq<char>, Seq<char>)>)
    requires
        is_legible(pairs),
    ensures
        field_pairs(canonical_pairs(pairs)) == pairs,
{
    lemma_separator();
    let blank = seq![' '];
    let texts = pairs.map_values(|pair: (Seq<char>, Seq<char>)| pair_text(pair));
    assert forall|i: int| 0 <= i < texts.len() implies !(#[trigger] texts[i]).contains(',') by {
        let between = seq![':'] + seq![' '];
        assert(texts[i] == pairs[i].0 + between + pairs[i].1);
        lemma_joined_free(pairs[i].0, between, ',');
        lemma_joined_free(pairs[i].0 + between, pairs[i].1, ',');
    }
    lemma_split_join(texts, ',', blank);
    let components = split(canonical_pairs(pairs), ',');
    assert(components == padded(texts, blank));
    assert forall|i: int| 0 <= i < pairs.len() implies (#[trigger] field_pairs(
        canonical_pairs(pairs),
    )[i]) == pairs[i] by {
        let field = pairs[i].0;
        let value = pairs[i].1;
        let pad = if i == 0 {
            Seq::<char>::empty()
        } else {
            blank
        };
        let component = components[i];
        assert(component == pad + texts[i]);
        assert(texts[i] == field + (seq![':'] + seq![' ']) + value);
        let head = pad + field;
        let tail = blank + value;
        assert(component == head + seq![':'] + tail);
        lemma_joined_free(pad, field, ':');
        lemma_first_index(head, ':', tail);
        assert(component.take(head.len() as int) == head);
        assert(component.skip(head.len() as int + 1) == tail);
        lemma_trim_padded(pad, field);
        lemma_trim_padded(blank, value);
        assert(field_of(component) == field);
        assert(value_of(component) == value);
    }
    assert(field_pairs(canonical_pairs(pairs)) == pairs);
}

/// The fields with their values that a canonical value stands for make a
/// legible hash.
pub proof fn lemma_field_pairs_legible(value: Seq<char>)
    ensures
        is_legible(field_pairs(value)),
{
    lemma_split_pieces(value, ',');
    let components = split(value, ',');
    assert forall|i: int| 0 <= i < components.len() implies {
        &&& is_trimmed((#[trigger] field_pairs(value)[i]).0)
        &&& is_trimmed(field_pairs(value)[i].1)
        &&& !field_pairs(value)[i].0.contains(',')
        &&& !field_pairs(value)[i].0.contains(':')
        &&& !field_pairs(value)[i].1.contains(',')
    } by {
        let component = components[i];
        assert(!component.contains(','));
        let colon = first_index(component, ':');
        lemma_first_index_bounds(component, ':');
        let head = component.take(colon);
        lemma_part_free(component, 0, colon, ',');
        lemma_trim_result(head, ',');
        lemma_trim_result(head, ':');
        if colon < component.len() {
            let tail = component.skip(colon + 1);
            lemma_part_free(component, colon + 1, component.len() as int, ',');
            lemma_trim_result(tail, ',');
        }
    }
}

/// A hash comes back with fields it was written with. The write deletes
/// the entry and sets the fields that the value stands for; where the store
/// answers the fetch with fields and values that were set, in whatever
/// order, the read ends with a hash whose canonical value stands for just
/// the fields and values of that answer.
pub proof fn lemma_hash_round_trip(key: Seq<char>, value: Seq<char>, pairs: Vec<(String, String)>)
    requires
        pairs.deep_view().len() >= 1,
        forall|i: int|
            0 <= i < pairs.deep_view().len() ==> field_pairs(value).contains(
                #[trigger] pairs.deep_view()[i],
            ),
    ensures
        write_commands(key, value, RedisValueType::Hash) == seq![
            CommandView::Del { key },
            CommandView::HSetMultiple { key, pairs: field_pairs(value) },
        ],
        read_step(
            key,
            ReadState::Fetching(RedisValueType::Hash),
            Ok::<StoreReply, KVAdminerError>(StoreReply::Pairs(pairs)),
        ) == ReadStepView::Done(Ok((canonical_pairs(pairs.deep_view()), RedisValueType::Hash))),
        field_pairs(canonical_pairs(pairs.deep_view())) == pairs.deep_view(),
{
    let written = field_pairs(value);
    let given = pairs.deep_view();
    lemma_field_pairs_legible(value);
    assert forall|i: int| 0 <= i < given.len() implies {
        &&& is_trimmed((#[trigger] given[i]).0)
        &&& is_trimmed(given[i].1)
        &&& !given[i].0.contains(',')
        &&& !given[i].0.contains(':')
        &&& !given[i].1.contains(',')
    } by {
        assert(written.contains(given[i]));
        let k = choose|k: int| 0 <= k < written.len() && written[k] == given[i];
        assert(is_trimmed(written[k].0));
    }
    lemma_pairs_round_trip(given);
}

/// A key under which there is no entry reads as absent, with an empty
/// value and without an error: the store names the type of such a key
/// `none`, and nothing is fetched.
pub proof fn lemma_absent_key(key: Seq<char>, name: String)
    requires
        name@ == "none"@,
    ensures
        read_step(key, ReadState::Probing, Ok::<StoreReply, KVAdminerError>(StoreReply::Text(name)))
            == ReadStepView::Done(Ok((Seq::<char>::empty(), RedisValueType::Absent))),
{
    reveal_strlit("none");
    reveal_strlit("string");
    reveal_strlit("list");
    reveal_strlit("set");
    reveal_strlit("zset");
    reveal_strlit("hash");
    assert("none"@.len() == 4);
    assert("list"@[0] == 'l');
    assert("zset"@[0] == 'z');
    assert("hash"@[0] == 'h');
}

} // verus!
