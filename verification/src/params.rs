//! Statement parameters, the order they go out in, and the bind message that carries them.
use vstd::prelude::*;
use vstd::utf8::{encode_utf8, encode_utf8_decode_utf8};

use crate::frontend::{bind, bind_body, nullable, transmissible, value_texts, values_written};
use crate::wire::{
    be16, be32, countable, counted16, cstr, framed, law_frame_declares_its_length,
    law_frame_is_spelled, law_numbers_are_spelled, law_read_back, law_read_back_short, read32,
    sizable, spelled,
};

verus! {

/// The value of a statement parameter.
#[derive(Debug)]
pub enum ParamValue {
    Null,
    Integer(i64),
    /// The bits of an IEEE 754 double.
    Real(u64),
    Text(String),
    Blob(Vec<u8>),
}

/// A value bound to the parameter with this index.
#[derive(Debug)]
pub struct BoundParam {
    pub index: usize,
    pub value: ParamValue,
}

pub enum ParamValueView {
    Null,
    Integer(i64),
    Real(u64),
    Text(Seq<char>),
    Blob(Seq<u8>),
}

pub struct BoundParamView {
    pub index: usize,
    pub value: ParamValueView,
}

impl View for ParamValue {
    type V = ParamValueView;

    open spec fn view(&self) -> ParamValueView {
        match *self {
            ParamValue::Null => ParamValueView::Null,
            ParamValue::Integer(i) => ParamValueView::Integer(i),
            ParamValue::Real(bits) => ParamValueView::Real(bits),
            ParamValue::Text(text) => ParamValueView::Text(text@),
            ParamValue::Blob(bytes) => ParamValueView::Blob(bytes@),
        }
    }
}

impl View for BoundParam {
    type V = BoundParamView;

    open spec fn view(&self) -> BoundParamView {
        BoundParamView { index: self.index, value: self.value@ }
    }
}

/// The parameters that a list holds.
pub open spec fn bound(params: Seq<BoundParam>) -> Seq<BoundParamView> {
    params.map_values(|p: BoundParam| p@)
}

/// The parameters bound to one index, in the order they were bound in.
pub open spec fn at_index(params: Seq<BoundParamView>, index: usize) -> Seq<BoundParamView> {
    params.filter(|p: BoundParamView| p.index == index)
}

/// No parameter stands before one with a lower index.
pub open spec fn ascending(params: Seq<BoundParamView>) -> bool {
    forall|i: int, j: int| 0 <= i < j < params.len() ==> params[i].index <= params[j].index
}

/// `ordered` holds the parameters of `params` by ascending index, those with
/// one index in the order they had.
pub open spec fn is_index_order(
    params: Seq<BoundParamView>,
    ordered: Seq<BoundParamView>,
) -> bool {
    &&& ascending(ordered)
    &&& forall|index: usize| #[trigger] at_index(ordered, index) == at_index(params, index)
}

/// The parameters by ascending index, those with one index in the order they
/// were bound in.
pub open spec fn in_index_order(params: Seq<BoundParamView>) -> Seq<BoundParamView> {
    choose|ordered: Seq<BoundParamView>| is_index_order(params, ordered)
}

/// A list without a parameter of some index has none at that index.
proof fn lemma_nothing_at_index(params: Seq<BoundParamView>, index: usize)
    requires
        forall|i: int| 0 <= i < params.len() ==> params[i].index != index,
    ensures
        at_index(params, index) == Seq::<BoundParamView>::empty(),
    decreases params.len(),
{
    reveal(Seq::filter);
    if params.len() > 0 {
        lemma_nothing_at_index(params.drop_last(), index);
    }
}

/// Where a parameter goes into an ordered list: behind all that do not have a
/// higher index.
proof fn lemma_insert_in_order(
    params: Seq<BoundParamView>,
    ordered: Seq<BoundParamView>,
    next: BoundParamView,
    at: int,
)
    requires
        is_index_order(params, ordered),
        0 <= at <= ordered.len(),
        forall|i: int| 0 <= i < at ==> ordered[i].index <= next.index,
        forall|i: int| at <= i < ordered.len() ==> next.index < ordered[i].index,
    ensures
        is_index_order(params.push(next), ordered.insert(at, next)),
{
    let after = ordered.insert(at, next);
    let low = ordered.take(at);
    let high = ordered.skip(at);
    assert(ordered =~= low + high);
    assert(after =~= low + seq![next] + high);
    assert(params.push(next) =~= params + seq![next]);
    assert forall|index: usize| #[trigger] at_index(after, index) == at_index(
        params.push(next),
        index,
    ) by {
        let chosen = |p: BoundParamView| p.index == index;
        Seq::filter_distributes_over_add(low, high, chosen);
        Seq::filter_distributes_over_add(low + seq![next], high, chosen);
        Seq::filter_distributes_over_add(low, seq![next], chosen);
        Seq::filter_distributes_over_add(params, seq![next], chosen);
        assert(at_index(ordered, index) == at_index(params, index));
        if next.index == index {
            lemma_nothing_at_index(high, index);
        } else {
            lemma_nothing_at_index(seq![next], index);
        }
        assert(at_index(after, index) =~= at_index(params.push(next), index));
    }
}

/// An ordered list ends with the last of the parameters at its highest index.
proof fn lemma_last_at_index(ordered: Seq<BoundParamView>)
    requires
        ordered.len() > 0,
    ensures
        at_index(ordered, ordered.last().index) == at_index(
            ordered.drop_last(),
            ordered.last().index,
        ).push(ordered.last()),
        forall|index: usize|
            index != ordered.last().index ==> #[trigger] at_index(ordered, index) == at_index(
                ordered.drop_last(),
                index,
            ),
{
    reveal(Seq::filter);
}

/// There is one index order of a list only.
pub proof fn law_index_order_is_unique(
    params: Seq<BoundParamView>,
    a: Seq<BoundParamView>,
    b: Seq<BoundParamView>,
)
    requires
        is_index_order(params, a),
        is_index_order(params, b),
    ensures
        a == b,
    decreases a.len(),
{
    if a.len() == 0 {
        if b.len() > 0 {
            lemma_last_at_index(b);
            lemma_nothing_at_index(a, b.last().index);
            assert(at_index(a, b.last().index) == at_index(b, b.last().index));
        }
        assert(a =~= b);
    } else {
        let top = a.last().index;
        lemma_last_at_index(a);
        assert(at_index(a, top) == at_index(b, top));
        if b.len() == 0 {
            lemma_nothing_at_index(b, top);
        }
        let other = b.last().index;
        lemma_last_at_index(b);
        assert(at_index(a, other) == at_index(b, other));
        if other > top {
            lemma_nothing_at_index(a, other);
        }
        if other < top {
            lemma_nothing_at_index(b, top);
        }
        assert(a.last() == at_index(a, top).last());
        assert(b.last() == at_index(b, top).last());
        let rest = a.drop_last();
        assert forall|index: usize| #[trigger] at_index(b.drop_last(), index) == at_index(
            rest,
            index,
        ) by {
            assert(at_index(a, index) == at_index(b, index));
            if index == top {
                assert(at_index(a, top).drop_last() =~= at_index(rest, top));
                assert(at_index(b, top).drop_last() =~= at_index(b.drop_last(), top));
            }
        }
        law_index_order_is_unique(rest, rest, b.drop_last());
        assert(a =~= rest.push(a.last()));
        assert(b =~= b.drop_last().push(b.last()));
    }
}

/// How many parameters of an ordered list go before `next`.
spec fn position_for(ordered: Seq<BoundParamView>, next: BoundParamView) -> int
    decreases ordered.len(),
{
    if ordered.len() == 0 || ordered.last().index <= next.index {
        ordered.len() as int
    } else {
        position_for(ordered.drop_last(), next)
    }
}

proof fn lemma_position_for(ordered: Seq<BoundParamView>, next: BoundParamView)
    requires
        ascending(ordered),
    ensures
        0 <= position_for(ordered, next) <= ordered.len(),
        forall|i: int| 0 <= i < position_for(ordered, next) ==> ordered[i].index <= next.index,
        forall|i: int|
            position_for(ordered, next) <= i < ordered.len() ==> next.index < ordered[i].index,
    decreases ordered.len(),
{
    if ordered.len() > 0 && ordered.last().index > next.index {
        lemma_position_for(ordered.drop_last(), next);
        assert forall|i: int| position_for(ordered, next) <= i < ordered.len() implies next.index
            < ordered[i].index by {
            if i < ordered.len() - 1 {
                assert(ordered.drop_last()[i] == ordered[i]);
            }
        }
        assert forall|i: int| 0 <= i < position_for(ordered, next) implies ordered[i].index
            <= next.index by {
            assert(ordered.drop_last()[i] == ordered[i]);
        }
    }
}

/// Every list has an index order, and the order holds what the list holds.
pub proof fn law_index_order_exists(params: Seq<BoundParamView>)
    ensures
        is_index_order(params, in_index_order(params)),
        in_index_order(params).to_multiset() == params.to_multiset(),
        in_index_order(params).len() == params.len(),
    decreases params.len(),
{
    broadcast use vstd::seq_lib::group_to_multiset_ensures;

    let ordered = if params.len() == 0 {
        assert(is_index_order(params, params));
        params
    } else {
        let before = in_index_order(params.drop_last());
        law_index_order_exists(params.drop_last());
        let next = params.last();
        let at = position_for(before, next);
        lemma_position_for(before, next);
        lemma_insert_in_order(params.drop_last(), before, next, at);
        assert(params =~= params.drop_last().push(next));
        vstd::seq_lib::to_multiset_insert(before, at, next);
        before.insert(at, next)
    };
    law_index_order_is_unique(params, ordered, in_index_order(params));
}

/// What stands for two ordered lists while they are merged from their ends: what
/// is left of each, and the merged list so far behind that.
spec fn is_merging(
    first: Seq<BoundParamView>,
    second: Seq<BoundParamView>,
    a: Seq<BoundParamView>,
    b: Seq<BoundParamView>,
    merged: Seq<BoundParamView>,
) -> bool {
    &&& ascending(a) && ascending(b) && ascending(merged)
    &&& forall|i: int, j: int|
        0 <= i < a.len() && 0 <= j < merged.len() ==> a[i].index <= merged[j].index
    &&& forall|i: int, j: int|
        0 <= i < b.len() && 0 <= j < merged.len() ==> b[i].index <= merged[j].index
    &&& forall|index: usize| #[trigger]
        at_index(a + b + merged, index) == at_index(first + second, index)
}

/// The last of the second list goes in front of what is merged, if the first list
/// has none with a higher index left.
proof fn lemma_merge_second(
    first: Seq<BoundParamView>,
    second: Seq<BoundParamView>,
    a: Seq<BoundParamView>,
    b: Seq<BoundParamView>,
    merged: Seq<BoundParamView>,
)
    requires
        is_merging(first, second, a, b, merged),
        b.len() > 0,
        a.len() > 0 ==> a.last().index <= b.last().index,
    ensures
        is_merging(first, second, a, b.drop_last(), seq![b.last()] + merged),
{
    let after = seq![b.last()] + merged;
    assert(a + b.drop_last() + after =~= a + b + merged);
    assert forall|i: int, j: int| 0 <= i < a.len() && 0 <= j < after.len() implies a[i].index
        <= after[j].index by {
        assert(a[i].index <= a.last().index);
    }
    assert forall|index: usize| #[trigger]
        at_index(a + b.drop_last() + after, index) == at_index(first + second, index) by {
        assert(at_index(a + b + merged, index) == at_index(first + second, index));
    }
}

/// The last of the first list goes in front of what is merged, if the second list
/// has only lower indices left.
proof fn lemma_merge_first(
    first: Seq<BoundParamView>,
    second: Seq<BoundParamView>,
    a: Seq<BoundParamView>,
    b: Seq<BoundParamView>,
    merged: Seq<BoundParamView>,
)
    requires
        is_merging(first, second, a, b, merged),
        a.len() > 0,
        b.len() > 0 ==> b.last().index < a.last().index,
    ensures
        is_merging(first, second, a.drop_last(), b, seq![a.last()] + merged),
{
    let one = seq![a.last()];
    let rest = a.drop_last();
    let after = one + merged;
    assert forall|i: int| 0 <= i < b.len() implies b[i].index < a.last().index by {
        assert(b[i].index <= b.last().index);
    }
    assert forall|index: usize| #[trigger]
        at_index(rest + b + after, index) == at_index(first + second, index) by {
        let chosen = |p: BoundParamView| p.index == index;
        assert(at_index(a + b + merged, index) == at_index(first + second, index));
        assert(a + b + merged =~= rest + one + b + merged);
        assert(rest + b + after =~= rest + b + one + merged);
        Seq::filter_distributes_over_add(rest + one + b, merged, chosen);
        Seq::filter_distributes_over_add(rest + one, b, chosen);
        Seq::filter_distributes_over_add(rest, one, chosen);
        Seq::filter_distributes_over_add(rest + b + one, merged, chosen);
        Seq::filter_distributes_over_add(rest + b, one, chosen);
        Seq::filter_distributes_over_add(rest, b, chosen);
        if index == a.last().index {
            lemma_nothing_at_index(b, index);
        } else {
            lemma_nothing_at_index(one, index);
        }
        assert(at_index(rest + b + after, index) =~= at_index(a + b + merged, index));
    }
}

/// The parameters of two ordered lists by ascending index, those with one index in
/// the order they had, those of the first list before those of the second.
fn merge(first: Vec<BoundParam>, second: Vec<BoundParam>) -> (merged: Vec<BoundParam>)
    requires
        ascending(bound(first@)),
        ascending(bound(second@)),
    ensures
        is_index_order(bound(first@) + bound(second@), bound(merged@)),
{
    let mut a = first;
    let mut b = second;
    let mut backward: Vec<BoundParam> = Vec::new();
    let ghost mut merged = Seq::<BoundParamView>::empty();
    assert(bound(a@) + bound(b@) + merged =~= bound(first@) + bound(second@));
    while a.len() > 0 || b.len() > 0
        invariant
            is_merging(bound(first@), bound(second@), bound(a@), bound(b@), merged),
            merged =~= bound(backward@).reverse(),
        decreases a.len() + b.len(),
    {
        let ghost (left, right) = (bound(a@), bound(b@));
        let from_second = if a.len() == 0 {
            true
        } else if b.len() == 0 {
            false
        } else {
            a[a.len() - 1].index <= b[b.len() - 1].index
        };
        assert(a.len() > 0 ==> left.last() == a@.last()@);
        assert(b.len() > 0 ==> right.last() == b@.last()@);
        let next = if from_second {
            proof {
                lemma_merge_second(bound(first@), bound(second@), left, right, merged);
                merged = seq![right.last()] + merged;
            }
            b.pop()
        } else {
            proof {
                lemma_merge_first(bound(first@), bound(second@), left, right, merged);
                merged = seq![left.last()] + merged;
            }
            a.pop()
        };
        assert(bound(a@) =~= if from_second { left } else { left.drop_last() });
        assert(bound(b@) =~= if from_second { right.drop_last() } else { right });
        backward.push(next.unwrap());
    }
    assert(bound(a@) + bound(b@) + merged =~= merged);
    let ghost all = backward@;
    let mut forward: Vec<BoundParam> = Vec::new();
    while backward.len() > 0
        invariant
            backward.len() <= all.len(),
            backward@ =~= all.take(backward.len() as int),
            forward@ =~= all.skip(backward.len() as int).reverse(),
        decreases backward.len(),
    {
        let next = backward.pop();
        forward.push(next.unwrap());
    }
    assert(bound(forward@) =~= merged);
    assert forall|index: usize| #[trigger] at_index(merged, index) == at_index(
        bound(first@) + bound(second@),
        index,
    ) by {
        assert(at_index(bound(a@) + bound(b@) + merged, index) == at_index(
            bound(first@) + bound(second@),
            index,
        ));
    }
    forward
}

/// Ordering the two parts of a list changes nothing about its index order.
proof fn lemma_order_by_parts(
    low: Seq<BoundParamView>,
    high: Seq<BoundParamView>,
    ordered: Seq<BoundParamView>,
)
    requires
        is_index_order(in_index_order(low) + in_index_order(high), ordered),
    ensures
        is_index_order(low + high, ordered),
{
    law_index_order_exists(low);
    law_index_order_exists(high);
    let (a, b) = (in_index_order(low), in_index_order(high));
    assert forall|index: usize| #[trigger] at_index(ordered, index) == at_index(
        low + high,
        index,
    ) by {
        let chosen = |p: BoundParamView| p.index == index;
        assert(at_index(ordered, index) == at_index(a + b, index));
        Seq::filter_distributes_over_add(a, b, chosen);
        Seq::filter_distributes_over_add(low, high, chosen);
        assert(at_index(a, index) == at_index(low, index));
        assert(at_index(b, index) == at_index(high, index));
    }
}

/// The parameters by ascending index, those with one index in the order they
/// were bound in.
pub fn sort_by_index(params: Vec<BoundParam>) -> (ordered: Vec<BoundParam>)
    ensures
        bound(ordered@) == in_index_order(bound(params@)),
    decreases params.len(),
{
    let ghost all = bound(params@);
    proof {
        law_index_order_exists(all);
    }
    if params.len() <= 1 {
        proof {
            assert(is_index_order(all, all));
            law_index_order_is_unique(all, all, in_index_order(all));
        }
        return params;
    }
    let mut low = params;
    let middle: usize = low.len() / 2;
    let high = low.split_off(middle);
    proof {
        assert(all =~= bound(low@) + bound(high@));
        law_index_order_exists(bound(low@));
        law_index_order_exists(bound(high@));
    }
    let ghost (low_part, high_part) = (bound(low@), bound(high@));
    let ordered = merge(sort_by_index(low), sort_by_index(high));
    proof {
        lemma_order_by_parts(low_part, high_part, bound(ordered@));
        law_index_order_is_unique(all, bound(ordered@), in_index_order(all));
    }
    ordered
}

/// Something is too long for the bind message.
#[derive(Debug, Clone, Copy, PartialEq, Eq, Structural)]
pub struct BindError;

/// What stands in the way of writing a value.
#[derive(Debug, Clone, Copy, PartialEq, Eq, Structural)]
pub enum Obstacle {
    /// The value is too long for the length that goes before it.
    TooLong,
    /// The value is neither text nor null: the others have no encoding here.
    Unsupported,
}

/// The values of the parameters, in index order.
pub open spec fn ordered_values(params: Seq<BoundParamView>) -> Seq<ParamValueView> {
    in_index_order(params).map_values(|p: BoundParamView| p.value)
}

/// The format of a value on the wire: text (0) or binary (1).
pub open spec fn format_code(value: ParamValueView) -> i16 {
    if value is Text {
        0
    } else {
        1
    }
}

pub open spec fn format_codes(values: Seq<ParamValueView>) -> Seq<i16> {
    values.map_values(|v: ParamValueView| format_code(v))
}

/// The text of a value, or nothing for null.
pub open spec fn text_of(value: ParamValueView) -> Option<Seq<char>> {
    match value {
        ParamValueView::Text(text) => Some(text),
        _ => None,
    }
}

pub open spec fn texts_of(values: Seq<ParamValueView>) -> Seq<Option<Seq<char>>> {
    values.map_values(|v: ParamValueView| text_of(v))
}

/// The first thing that stands in the way of writing the values one by one.
pub open spec fn obstacle(values: Seq<ParamValueView>) -> Option<Obstacle>
    decreases values.len(),
{
    if values.len() == 0 {
        None
    } else if !(values[0] is Null || values[0] is Text) {
        Some(Obstacle::Unsupported)
    } else if !transmissible(text_of(values[0])) {
        Some(Obstacle::TooLong)
    } else {
        obstacle(values.drop_first())
    }
}

/// What a bind message for these values holds: the unnamed statement bound to
/// the unnamed portal, with all results in binary.
pub open spec fn bind_values_body(values: Seq<ParamValueView>) -> Seq<u8> {
    bind_body(""@, ""@, format_codes(values), texts_of(values), seq![1i16])
}

/// Whether parameters can be handed to a bind message: the first thing in its way,
/// if there is one, is that something is too long.
pub open spec fn bindable(params: Seq<BoundParamView>) -> bool {
    countable(params.len()) ==> obstacle(ordered_values(params)) != Some(Obstacle::Unsupported)
}

/// The bind message for parameters, whatever order they were bound in.
pub open spec fn bind_request(params: Seq<BoundParamView>) -> Result<Seq<u8>, BindError> {
    let values = ordered_values(params);
    if countable(values.len()) && obstacle(values) is None && sizable(bind_values_body(values)) {
        Ok(framed(0x42, bind_values_body(values)))
    } else {
        Err(BindError)
    }
}

/// Values without an obstacle are text or null, none of them too long.
proof fn lemma_no_obstacle(values: Seq<ParamValueView>)
    requires
        obstacle(values) is None,
    ensures
        forall|i: int| 0 <= i < values.len() ==> transmissible(text_of(#[trigger] values[i])),
    decreases values.len(),
{
    if values.len() > 0 {
        lemma_no_obstacle(values.drop_first());
        assert forall|i: int| 0 <= i < values.len() implies transmissible(
            text_of(#[trigger] values[i]),
        ) by {
            if i > 0 {
                assert(values.drop_first()[i - 1] == values[i]);
            }
        }
    }
}

/// The bind message for parameters. They go out by ascending index, text as
/// text, and null without a value.
pub fn bind_message(params: Vec<BoundParam>) -> (r: Result<Vec<u8>, BindError>)
    requires
        bindable(bound(params@)),
    ensures
        match r {
            Ok(message) => bind_request(bound(params@)) == Ok::<_, BindError>(message@),
            Err(error) => bind_request(bound(params@)) == Err::<Seq<u8>, _>(error),
        },
{
    let ghost values = ordered_values(bound(params@));
    proof {
        law_index_order_exists(bound(params@));
    }
    if params.len() > i16::MAX as usize {
        return Err(BindError);
    }
    let ordered = sort_by_index(params);
    assert(values =~= ordered@.map_values(|p: BoundParam| p@.value));
    let mut formats: Vec<i16> = Vec::new();
    let mut texts: Vec<Option<String>> = Vec::new();
    assert(values.skip(0) =~= values);
    for param in it: ordered
        invariant
            it.seq() == ordered@,
            values =~= ordered@.map_values(|p: BoundParam| p@.value),
            values == ordered_values(bound(params@)),
            countable(values.len()),
            obstacle(values) != Some(Obstacle::Unsupported),
            formats@ =~= format_codes(values.take(it.index())),
            value_texts(texts@) =~= texts_of(values.take(it.index())),
            texts@.len() == it.index(),
            obstacle(values) == obstacle(values.skip(it.index())),
    {
        proof {
            let rest = values.skip(it.index());
            assert(rest[0] == param.value@);
            assert(rest.drop_first() =~= values.skip(it.index() + 1));
            assert(values.take(it.index() + 1) =~= values.take(it.index()).push(param.value@));
        }
        let ghost before = value_texts(texts@);
        match param.value {
            ParamValue::Null => {
                formats.push(1);
                texts.push(None);
            },
            ParamValue::Text(text) => {
                if text.as_str().as_bytes().len() > i32::MAX as usize {
                    return Err(BindError);
                }
                formats.push(0);
                texts.push(Some(text));
            },
            _ => {
                assert(false);
            },
        }
        assert(value_texts(texts@) =~= before.push(text_of(values[it.index()])));
    }
    proof {
        reveal_strlit("");
        assert(values.take(values.len() as int) =~= values);
        lemma_no_obstacle(values);
        assert(value_texts(texts@) =~= texts_of(values));
        assert(encode_utf8(""@) =~= seq![]);
    }
    let results: Vec<i16> = vec![1];
    assert(results@ =~= seq![1i16]);
    match bind("", "", formats, texts, results) {
        Ok(message) => Ok(message),
        Err(()) => Err(BindError),
    }
}

/// The first thing that stands in the way of writing the values as they stand.
fn first_obstacle(params: &Vec<BoundParam>) -> (r: Option<Obstacle>)
    ensures
        r == obstacle(params@.map_values(|p: BoundParam| p@.value)),
{
    let ghost values = params@.map_values(|p: BoundParam| p@.value);
    assert(values.skip(0) =~= values);
    let mut i: usize = 0;
    while i < params.len()
        invariant
            i <= params.len(),
            values == params@.map_values(|p: BoundParam| p@.value),
            obstacle(values) == obstacle(values.skip(i as int)),
        decreases params.len() - i,
    {
        assert(values.skip(i as int)[0] == params@[i as int].value@);
        assert(values.skip(i as int).drop_first() =~= values.skip(i + 1));
        match &params[i].value {
            ParamValue::Null => {},
            ParamValue::Text(text) => {
                if text.as_str().as_bytes().len() > i32::MAX as usize {
                    return Some(Obstacle::TooLong);
                }
            },
            _ => return Some(Obstacle::Unsupported),
        }
        i = i + 1;
    }
    None
}

/// The index order of an ordered list is the list.
proof fn lemma_order_of_ordered(params: Seq<BoundParamView>)
    ensures
        in_index_order(in_index_order(params)) == in_index_order(params),
        bindable(in_index_order(params)) == bindable(params),
        bind_request(in_index_order(params)) == bind_request(params),
{
    let ordered = in_index_order(params);
    law_index_order_exists(params);
    law_index_order_exists(ordered);
    assert(is_index_order(ordered, ordered));
    law_index_order_is_unique(ordered, ordered, in_index_order(ordered));
}

/// The parameters in index order, if they can be handed to a bind message.
pub fn sort_if_bindable(params: Vec<BoundParam>) -> (r: Option<Vec<BoundParam>>)
    ensures
        match r {
            Some(ordered) => {
                &&& bindable(bound(params@))
                &&& bound(ordered@) == in_index_order(bound(params@))
                &&& bindable(bound(ordered@))
                &&& bind_request(bound(ordered@)) == bind_request(bound(params@))
            },
            None => !bindable(bound(params@)),
        },
{
    let ordered = sort_by_index(params);
    proof {
        law_index_order_exists(bound(params@));
        lemma_order_of_ordered(bound(params@));
        assert(ordered_values(bound(params@)) =~= ordered@.map_values(|p: BoundParam| p@.value));
    }
    if ordered.len() <= i16::MAX as usize {
        if let Some(Obstacle::Unsupported) = first_obstacle(&ordered) {
            return None;
        }
    }
    Some(ordered)
}

/// No two parameters have one index.
pub open spec fn distinct_indices(params: Seq<BoundParamView>) -> bool {
    forall|i: int, j: int|
        0 <= i < params.len() && 0 <= j < params.len() && i != j ==> params[i].index
            != params[j].index
}

/// With distinct indices, a parameter is the only one at its index.
proof fn lemma_alone_at_index(params: Seq<BoundParamView>, at: int)
    requires
        distinct_indices(params),
        0 <= at < params.len(),
    ensures
        at_index(params, params[at].index) == seq![params[at]],
{
    let index = params[at].index;
    let chosen = |p: BoundParamView| p.index == index;
    let before = params.take(at);
    let one = seq![params[at]];
    let after = params.skip(at + 1);
    assert(params =~= before + one + after);
    Seq::filter_distributes_over_add(before + one, after, chosen);
    Seq::filter_distributes_over_add(before, one, chosen);
    lemma_nothing_at_index(before, index);
    lemma_nothing_at_index(after, index);
    reveal_with_fuel(Seq::filter, 2);
    assert(one.drop_last() =~= seq![]);
    assert(one.filter(chosen) =~= one);
    assert(at_index(params, index) =~= one);
}

/// The order in which parameters were bound does not matter: the same
/// parameters, with one value for each index, give the same bind message.
pub proof fn law_binding_order_does_not_matter(
    a: Seq<BoundParamView>,
    b: Seq<BoundParamView>,
)
    requires
        distinct_indices(a),
        distinct_indices(b),
        forall|p: BoundParamView| a.contains(p) <==> b.contains(p),
    ensures
        in_index_order(a) == in_index_order(b),
        bindable(a) == bindable(b),
        bind_request(a) == bind_request(b),
{
    assert forall|index: usize| #[trigger] at_index(a, index) == at_index(b, index) by {
        if exists|i: int| 0 <= i < a.len() && a[i].index == index {
            let i = choose|i: int| 0 <= i < a.len() && a[i].index == index;
            assert(a.contains(a[i]));
            let j = b.index_of(a[i]);
            lemma_alone_at_index(a, i);
            lemma_alone_at_index(b, j);
        } else {
            lemma_nothing_at_index(a, index);
            assert forall|j: int| 0 <= j < b.len() implies b[j].index != index by {
                assert(b.contains(b[j]));
                assert(a.contains(b[j]));
            }
            lemma_nothing_at_index(b, index);
        }
    }
    law_index_order_exists(a);
    law_index_order_exists(b);
    assert forall|index: usize| #[trigger] at_index(in_index_order(b), index) == at_index(
        a,
        index,
    ) by {
        assert(at_index(a, index) == at_index(b, index));
    }
    law_index_order_is_unique(a, in_index_order(a), in_index_order(b));
}

/// The length that goes before a value, -1 for null, can be read back.
proof fn lemma_length_read_back(len: int)
    requires
        -1 <= len <= i32::MAX,
    ensures
        be32(len).len() == 4,
        read32(be32(len)) == (if len == -1 {
            u32::MAX as int
        } else {
            len
        }),
{
    if len == -1 {
        assert(be16(-1) =~= seq![0xffu8, 0xffu8]);
        assert(-1int / 0x1_0000 == -1);
        assert(be32(-1) =~= seq![0xffu8, 0xffu8, 0xffu8, 0xffu8]);
    } else {
        law_read_back(len);
    }
}

/// Of two values on the wire, whatever stands behind them, equal bytes are equal
/// values.
proof fn lemma_value_is_unambiguous(
    a: Option<Seq<char>>,
    b: Option<Seq<char>>,
    behind_a: Seq<u8>,
    behind_b: Seq<u8>,
)
    requires
        transmissible(a),
        transmissible(b),
        nullable(a) + behind_a == nullable(b) + behind_b,
    ensures
        a == b,
        behind_a == behind_b,
{
    let bytes = nullable(a) + behind_a;
    let len_a = if a is Some { encode_utf8(a->0).len() as int } else { -1 };
    let len_b = if b is Some { encode_utf8(b->0).len() as int } else { -1 };
    lemma_length_read_back(len_a);
    lemma_length_read_back(len_b);
    assert(bytes.take(4) =~= be32(len_a));
    assert((nullable(b) + behind_b).take(4) =~= be32(len_b));
    assert(len_a == len_b);
    if a is Some {
        assert(bytes.subrange(4, 4 + len_a) =~= encode_utf8(a->0));
        assert((nullable(b) + behind_b).subrange(4, 4 + len_b) =~= encode_utf8(b->0));
        encode_utf8_decode_utf8(a->0);
        encode_utf8_decode_utf8(b->0);
    }
    let end = nullable(a).len() as int;
    assert(bytes.skip(end) =~= behind_a);
    assert((nullable(b) + behind_b).skip(end) =~= behind_b);
}

/// Of two lists of values on the wire, as many in the one as in the other, equal
/// bytes are equal values.
proof fn lemma_values_are_unambiguous(
    a: Seq<Option<Seq<char>>>,
    b: Seq<Option<Seq<char>>>,
    behind_a: Seq<u8>,
    behind_b: Seq<u8>,
)
    requires
        a.len() == b.len(),
        forall|i: int| 0 <= i < a.len() ==> transmissible(#[trigger] a[i]),
        forall|i: int| 0 <= i < b.len() ==> transmissible(#[trigger] b[i]),
        values_written(a) + behind_a == values_written(b) + behind_b,
    ensures
        a == b,
    decreases a.len(),
{
    if a.len() > 0 {
        let (rest_a, rest_b) = (a.drop_first(), b.drop_first());
        let (next_a, next_b) = (values_written(rest_a) + behind_a, values_written(rest_b) + behind_b);
        let write = |v: Option<Seq<char>>| nullable(v);
        assert(a.map_values(write).drop_first() =~= rest_a.map_values(write));
        assert(b.map_values(write).drop_first() =~= rest_b.map_values(write));
        assert(values_written(a) + behind_a =~= nullable(a[0]) + next_a);
        assert(values_written(b) + behind_b =~= nullable(b[0]) + next_b);
        lemma_value_is_unambiguous(a[0], b[0], next_a, next_b);
        assert forall|i: int| 0 <= i < rest_a.len() implies transmissible(#[trigger] rest_a[i]) by {
            assert(rest_a[i] == a[i + 1]);
        }
        assert forall|i: int| 0 <= i < rest_b.len() implies transmissible(#[trigger] rest_b[i]) by {
            assert(rest_b[i] == b[i + 1]);
        }
        lemma_values_are_unambiguous(rest_a, rest_b, behind_a, behind_b);
        assert(a =~= seq![a[0]] + rest_a);
        assert(b =~= seq![b[0]] + rest_b);
    }
    assert(a =~= b);
}

/// A bind message says what is bound: two lists of parameters that have one bind
/// message have the same values in the same order.
pub proof fn law_bind_message_is_unambiguous(a: Seq<BoundParamView>, b: Seq<BoundParamView>)
    requires
        bind_request(a) is Ok,
        bind_request(a) == bind_request(b),
    ensures
        ordered_values(a) == ordered_values(b),
{
    let (va, vb) = (ordered_values(a), ordered_values(b));
    let (body_a, body_b) = (bind_values_body(va), bind_values_body(vb));
    law_frame_declares_its_length(0x42, body_a);
    law_frame_declares_its_length(0x42, body_b);
    assert(body_a == body_b);
    lemma_bind_body(va);
    lemma_bind_body(vb);
    law_read_back_short(va.len() as int);
    law_read_back_short(vb.len() as int);
    assert(be16(va.len() as int) == be16(vb.len() as int));
    assert(va.len() == vb.len());
    lemma_no_obstacle(va);
    lemma_no_obstacle(vb);
    lemma_values_are_unambiguous(texts_of(va), texts_of(vb), seq![0, 1, 0, 1], seq![0, 1, 0, 1]);
    lemma_texts_tell(va);
    lemma_texts_tell(vb);
    assert forall|i: int| 0 <= i < va.len() implies va[i] == vb[i] by {
        assert(texts_of(va)[i] == texts_of(vb)[i]);
    }
    assert(va =~= vb);
}

/// Values without an obstacle are told by their texts.
proof fn lemma_texts_tell(values: Seq<ParamValueView>)
    requires
        obstacle(values) is None,
    ensures
        forall|i: int|
            0 <= i < values.len() ==> #[trigger] values[i] == (match text_of(values[i]) {
                Some(text) => ParamValueView::Text(text),
                None => ParamValueView::Null,
            }),
    decreases values.len(),
{
    if values.len() > 0 {
        lemma_texts_tell(values.drop_first());
        assert forall|i: int| 0 <= i < values.len() implies #[trigger] values[i] == (match text_of(
            values[i],
        ) {
            Some(text) => ParamValueView::Text(text),
            None => ParamValueView::Null,
        }) by {
            if i > 0 {
                assert(values.drop_first()[i - 1] == values[i]);
            }
        }
    }
}

/// Where the count and the values stand in the body of a bind message.
proof fn lemma_bind_body(values: Seq<ParamValueView>)
    ensures
        ({
            let body = bind_values_body(values);
            let count = values.len() as int;
            &&& body.len() >= 8 + 2 * count
            &&& body.subrange(2, 4) == be16(count)
            &&& body.skip(6 + 2 * count) == values_written(texts_of(values)) + seq![0u8, 1, 0, 1]
        }),
{
    let body = bind_values_body(values);
    let count = values.len() as int;
    let formats = format_codes(values);
    reveal_strlit("");
    assert(encode_utf8(""@) =~= seq![]);
    assert(cstr(""@) =~= seq![0u8]);
    lemma_shorts_len(formats);
    lemma_shorts_len(seq![1i16]);
    let results = seq![1i16].map_values(|i: i16| be16(i as int));
    reveal_with_fuel(Seq::flatten, 2);
    assert(results.drop_first() =~= seq![]);
    assert(results.flatten() =~= seq![0u8, 1]);
    assert(counted16(seq![1i16]) =~= seq![0u8, 1, 0, 1]);
    assert(body.subrange(2, 4) =~= be16(count));
    assert(body.skip(6 + 2 * count) =~= values_written(texts_of(values)) + seq![0u8, 1, 0, 1]);
}

proof fn lemma_shorts_len(items: Seq<i16>)
    ensures
        items.map_values(|i: i16| be16(i as int)).flatten().len() == 2 * items.len(),
    decreases items.len(),
{
    let written = items.map_values(|i: i16| be16(i as int));
    if items.len() > 0 {
        lemma_shorts_len(items.drop_first());
        assert(written.drop_first() =~= items.drop_first().map_values(|i: i16| be16(i as int)));
    }
}

/// What a list of bound parameters says is what it holds, one for one.
pub proof fn law_bound_says_what_it_holds(params: Seq<BoundParam>)
    ensures
        bound(params).len() == params.len(),
        forall|i: int|
            0 <= i < params.len() ==> (#[trigger] bound(params)[i]).index == params[i].index
                && bound(params)[i].value == (match params[i].value {
                ParamValue::Null => ParamValueView::Null,
                ParamValue::Integer(n) => ParamValueView::Integer(n),
                ParamValue::Real(bits) => ParamValueView::Real(bits),
                ParamValue::Text(text) => ParamValueView::Text(text@),
                ParamValue::Blob(bytes) => ParamValueView::Blob(bytes@),
            }),
{
}

/// The index order of a list holds what the list holds, no parameter before one of a
/// lower index, and those with one index in the order they were bound in.
pub proof fn law_index_order_is_by_index(params: Seq<BoundParamView>, index: usize)
    ensures
        ({
            let ordered = in_index_order(params);
            &&& ordered.len() == params.len()
            &&& ordered.to_multiset() == params.to_multiset()
            &&& forall|i: int, j: int|
                0 <= i < j < ordered.len() ==> ordered[i].index <= ordered[j].index
            &&& ordered.filter(|p: BoundParamView| p.index == index) == params.filter(
                |p: BoundParamView| p.index == index,
            )
        }),
{
    law_index_order_exists(params);
    let ordered = in_index_order(params);
    assert(at_index(ordered, index) == at_index(params, index));
}

/// A list whose indices ascend already is its own index order.
pub proof fn law_ascending_list_stays_as_it_is(params: Seq<BoundParamView>)
    requires
        forall|i: int, j: int| 0 <= i < j < params.len() ==> params[i].index <= params[j].index,
    ensures
        in_index_order(params) == params,
{
    law_index_order_exists(params);
    assert(is_index_order(params, params));
    law_index_order_is_unique(params, params, in_index_order(params));
}

/// A value in a bind message: the four bytes of its length and its UTF-8 bytes, or
/// four bytes of ones for null.
pub open spec fn value_spelled(param: BoundParamView) -> Seq<u8> {
    match param.value {
        ParamValueView::Text(text) => spelled(encode_utf8(text).len()) + encode_utf8(text),
        _ => seq![0xffu8, 0xff, 0xff, 0xff],
    }
}

/// What a bind message holds that carries these parameters one behind the other: two
/// empty names, their number, whether each is text (0) or not (1), their number once
/// more, their values, and that all results are binary.
pub open spec fn bind_spelled(params: Seq<BoundParamView>) -> Seq<u8> {
    let count = seq![(params.len() / 0x100) as u8, (params.len() % 0x100) as u8];
    let formats = Seq::new(
        params.len(),
        |i: int|
            if params[i].value is Text {
                seq![0u8, 0]
            } else {
                seq![0u8, 1]
            },
    );
    let values = Seq::new(params.len(), |i: int| value_spelled(params[i]));
    seq![0u8, 0] + count + formats.flatten() + count + values.flatten() + seq![0u8, 1, 0, 1]
}

/// Whether a value can be written: it is null, or text that is not too long.
pub open spec fn can_be_written(param: BoundParamView) -> bool {
    match param.value {
        ParamValueView::Null => true,
        ParamValueView::Text(text) => encode_utf8(text).len() <= 0x7fff_ffff,
        _ => false,
    }
}

proof fn lemma_obstacle(params: Seq<BoundParamView>, values: Seq<ParamValueView>)
    requires
        values == params.map_values(|p: BoundParamView| p.value),
    ensures
        obstacle(values) is None <==> forall|i: int|
            0 <= i < params.len() ==> can_be_written(#[trigger] params[i]),
        obstacle(values) == Some(Obstacle::Unsupported) <==> exists|i: int|
            0 <= i < params.len() && !((#[trigger] params[i]).value is Null || params[i].value is Text)
                && forall|j: int| 0 <= j < i ==> can_be_written(#[trigger] params[j]),
    decreases params.len(),
{
    if params.len() > 0 {
        let rest = params.drop_first();
        assert(values.drop_first() =~= rest.map_values(|p: BoundParamView| p.value));
        lemma_obstacle(rest, values.drop_first());
        assert(values[0] == params[0].value);
        assert forall|i: int| 0 <= i < rest.len() implies #[trigger] rest[i] == params[i + 1] by {}
        if can_be_written(params[0]) {
            assert(obstacle(values) == obstacle(values.drop_first()));
            if obstacle(values) is None {
                assert forall|i: int| 0 <= i < params.len() implies can_be_written(
                    #[trigger] params[i],
                ) by {
                    if i > 0 {
                        assert(can_be_written(rest[i - 1]));
                    }
                }
            }
            if forall|i: int| 0 <= i < params.len() ==> can_be_written(#[trigger] params[i]) {
                assert forall|i: int| 0 <= i < rest.len() implies can_be_written(
                    #[trigger] rest[i],
                ) by {
                    assert(can_be_written(params[i + 1]));
                }
            }
            if obstacle(values) == Some(Obstacle::Unsupported) {
                let i = choose|i: int|
                    0 <= i < rest.len() && !((#[trigger] rest[i]).value is Null
                        || rest[i].value is Text) && forall|j: int|
                        0 <= j < i ==> can_be_written(#[trigger] rest[j]);
                assert forall|j: int| 0 <= j < i + 1 implies can_be_written(
                    #[trigger] params[j],
                ) by {
                    if j > 0 {
                        assert(can_be_written(rest[j - 1]));
                    }
                }
                assert(!(params[i + 1].value is Null || params[i + 1].value is Text));
            }
            if exists|i: int|
                0 <= i < params.len() && !((#[trigger] params[i]).value is Null
                    || params[i].value is Text) && forall|j: int|
                    0 <= j < i ==> can_be_written(#[trigger] params[j]) {
                let i = choose|i: int|
                    0 <= i < params.len() && !((#[trigger] params[i]).value is Null
                        || params[i].value is Text) && forall|j: int|
                        0 <= j < i ==> can_be_written(#[trigger] params[j]);
                assert(i > 0);
                assert forall|j: int| 0 <= j < i - 1 implies can_be_written(#[trigger] rest[j]) by {
                    assert(can_be_written(params[j + 1]));
                }
                assert(!(rest[i - 1].value is Null || rest[i - 1].value is Text));
            }
        } else {
            assert(!can_be_written(params[0]));
            if params[0].value is Text {
                assert forall|i: int|
                    0 <= i < params.len() && !((#[trigger] params[i]).value is Null
                        || params[i].value is Text) implies !(forall|j: int|
                    0 <= j < i ==> can_be_written(#[trigger] params[j])) by {
                    assert(i > 0);
                    assert(!can_be_written(params[0]));
                }
            }
        }
    }
}

proof fn lemma_bind_is_spelled(ordered: Seq<BoundParamView>, values: Seq<ParamValueView>)
    requires
        values == ordered.map_values(|p: BoundParamView| p.value),
        ordered.len() <= 0x7fff,
        forall|i: int| 0 <= i < ordered.len() ==> can_be_written(#[trigger] ordered[i]),
    ensures
        bind_values_body(values) == bind_spelled(ordered),
{
    let count = ordered.len() as int;
    let formats = Seq::new(
        ordered.len(),
        |i: int|
            if ordered[i].value is Text {
                seq![0u8, 0]
            } else {
                seq![0u8, 1]
            },
    );
    let written = Seq::new(ordered.len(), |i: int| value_spelled(ordered[i]));
    law_numbers_are_spelled(count);
    law_numbers_are_spelled(0);
    law_numbers_are_spelled(1);
    reveal_strlit("");
    assert(encode_utf8(""@) =~= seq![]);
    assert(cstr(""@) =~= seq![0u8]);
    assert(format_codes(values).map_values(|i: i16| be16(i as int)) =~= formats) by {
        assert(be16(0) =~= seq![0u8, 0]);
        assert(be16(1) =~= seq![0u8, 1]);
    }
    let texts = texts_of(values);
    assert(texts.map_values(|v: Option<Seq<char>>| nullable(v)) =~= written) by {
        assert forall|i: int| 0 <= i < ordered.len() implies nullable(texts[i])
            == #[trigger] written[i] by {
            assert(can_be_written(ordered[i]));
            assert(texts[i] == text_of(ordered[i].value));
            if let ParamValueView::Text(text) = ordered[i].value {
                law_numbers_are_spelled(encode_utf8(text).len() as int);
            }
        }
    }
    let results = seq![1i16].map_values(|i: i16| be16(i as int));
    reveal_with_fuel(Seq::flatten, 2);
    assert(results.drop_first() =~= seq![]);
    assert(results.flatten() =~= seq![0u8, 1]);
    assert(counted16(seq![1i16]) =~= seq![0u8, 1, 0, 1]);
    assert(bind_values_body(values) =~= bind_spelled(ordered));
}

/// A bind message carries the values by ascending index, each behind its length. There
/// is one if and only if there are not too many parameters, each can be written, and
/// the message is not too long.
pub proof fn law_bind_message_is_spelled(params: Seq<BoundParamView>)
    ensures
        ({
            let ordered = in_index_order(params);
            let body = bind_spelled(ordered);
            let possible = {
                &&& params.len() <= 0x7fff
                &&& forall|i: int| 0 <= i < ordered.len() ==> can_be_written(#[trigger] ordered[i])
                &&& body.len() + 4 <= 0x7fff_ffff
            };
            bind_request(params) == (if possible {
                Ok::<_, BindError>(seq![0x42u8] + spelled(body.len() + 4) + body)
            } else {
                Err(BindError)
            })
        }),
{
    law_index_order_exists(params);
    let ordered = in_index_order(params);
    let values = ordered_values(params);
    lemma_obstacle(ordered, values);
    if params.len() <= 0x7fff && obstacle(values) is None {
        lemma_bind_is_spelled(ordered, values);
        if bind_spelled(ordered).len() + 4 <= 0x7fff_ffff {
            law_frame_is_spelled(0x42, bind_spelled(ordered));
        }
    }
}

/// Parameters cannot be handed to a bind message if and only if they can be counted
/// and the first of them by index that cannot be written is neither text nor null.
pub proof fn law_unsupported_values_are_not_bound(params: Seq<BoundParamView>)
    ensures
        ({
            let ordered = in_index_order(params);
            bindable(params) <==> !(params.len() <= 0x7fff && exists|i: int|
                0 <= i < ordered.len() && !((#[trigger] ordered[i]).value is Null
                    || ordered[i].value is Text) && forall|j: int|
                    0 <= j < i ==> can_be_written(#[trigger] ordered[j]))
        }),
{
    law_index_order_exists(params);
    lemma_obstacle(in_index_order(params), ordered_values(params));
}

/// Where the bytes of one of many parts begin when the parts stand one behind the
/// other.
pub open spec fn starts_at(parts: Seq<Seq<u8>>, i: int) -> int
    decreases i,
{
    if i <= 0 {
        0
    } else {
        starts_at(parts, i - 1) + parts[i - 1].len()
    }
}

proof fn lemma_part_of_flattened(parts: Seq<Seq<u8>>, i: int)
    requires
        0 <= i < parts.len(),
    ensures
        0 <= starts_at(parts, i),
        starts_at(parts, i) + parts[i].len() <= parts.flatten().len(),
        parts.flatten().subrange(starts_at(parts, i), starts_at(parts, i) + parts[i].len())
            == parts[i],
    decreases parts.len(),
{
    let rest = parts.drop_first();
    let flat = parts.flatten();
    assert(flat =~= parts[0] + rest.flatten());
    if i > 0 {
        lemma_part_of_flattened(rest, i - 1);
        lemma_starts_shift(parts, i);
        let at = starts_at(rest, i - 1);
        assert(rest[i - 1] == parts[i]);
        assert(flat.subrange(starts_at(parts, i), starts_at(parts, i) + parts[i].len())
            =~= rest.flatten().subrange(at, at + parts[i].len()));
    } else {
        assert(flat.subrange(0, parts[0].len() as int) =~= parts[0]);
    }
}

proof fn lemma_starts_shift(parts: Seq<Seq<u8>>, i: int)
    requires
        0 < i <= parts.len(),
    ensures
        starts_at(parts, i) == parts[0].len() + starts_at(parts.drop_first(), i - 1),
    decreases i,
{
    if i > 1 {
        lemma_starts_shift(parts, i - 1);
    } else {
        reveal_with_fuel(starts_at, 2);
    }
}

proof fn lemma_pairs_len(parts: Seq<Seq<u8>>)
    requires
        forall|i: int| 0 <= i < parts.len() ==> (#[trigger] parts[i]).len() == 2,
    ensures
        parts.flatten().len() == 2 * parts.len(),
    decreases parts.len(),
{
    if parts.len() > 0 {
        assert forall|i: int| 0 <= i < parts.drop_first().len() implies (
        #[trigger] parts.drop_first()[i]).len() == 2 by {
            assert(parts.drop_first()[i] == parts[i + 1]);
        }
        lemma_pairs_len(parts.drop_first());
    }
}

/// The parameter that stands at some place by ascending index is the value at that
/// place of the bind message: its bytes stand behind those of the values before it,
/// the first of them behind the tag, the length, the names, the formats and the two
/// counts.
pub proof fn law_each_value_stands_at_its_place(params: Seq<BoundParamView>, message: Seq<u8>, i: int)
    requires
        bind_request(params) == Ok::<_, BindError>(message),
        0 <= i < params.len(),
    ensures
        ({
            let ordered = in_index_order(params);
            let parts = Seq::new(ordered.len(), |k: int| value_spelled(ordered[k]));
            let start = 11 + 2 * params.len() + starts_at(parts, i);
            &&& 0 <= starts_at(parts, i)
            &&& start + value_spelled(ordered[i]).len() <= message.len() - 4
            &&& message.subrange(start, start + value_spelled(ordered[i]).len()) == value_spelled(
                ordered[i],
            )
            &&& message.subrange(7, 9) == seq![
                (params.len() / 0x100) as u8,
                (params.len() % 0x100) as u8,
            ]
        }),
{
    law_index_order_exists(params);
    law_bind_message_is_spelled(params);
    let ordered = in_index_order(params);
    let parts = Seq::new(ordered.len(), |k: int| value_spelled(ordered[k]));
    let formats = Seq::new(
        ordered.len(),
        |k: int|
            if ordered[k].value is Text {
                seq![0u8, 0]
            } else {
                seq![0u8, 1]
            },
    );
    let count = seq![(ordered.len() / 0x100) as u8, (ordered.len() % 0x100) as u8];
    let body = bind_spelled(ordered);
    lemma_pairs_len(formats);
    lemma_part_of_flattened(parts, i);
    assert(message =~= seq![0x42u8] + spelled(body.len() + 4) + body);
    let head = seq![0x42u8] + spelled(body.len() + 4) + seq![0u8, 0] + count + formats.flatten()
        + count;
    assert(head.len() == 11 + 2 * params.len());
    assert(message =~= head + parts.flatten() + seq![0u8, 1, 0, 1]);
    let start = 11 + 2 * params.len() + starts_at(parts, i);
    assert(message.subrange(start, start + parts[i].len()) =~= parts.flatten().subrange(
        starts_at(parts, i),
        starts_at(parts, i) + parts[i].len(),
    ));
    assert(message.subrange(7, 9) =~= count);
}

} // verus!
