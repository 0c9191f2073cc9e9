//! The explorer's queries and the SQL text each one runs.
use vstd::prelude::*;
use crate::text::decimal;
use crate::text::is_decimal_digit;
use crate::text::is_digit_of;
use crate::text::lemma_radix_repr_value;
use crate::text::parse_unsigned;
use crate::text::parse_u64;
use crate::text::push_char;
use crate::text::push_str;
use crate::text::push_decimal;
use crate::text::decimal_string;
use crate::text::lemma_decimal_parses_back;

verus! {

/// A 64-bit identifier that clients may send as a JSON number or as a decimal string
/// (JSON numbers lose precision above 2^53), and that is always sent back as a string.
#[derive(Debug, Clone, Copy, PartialEq, Eq, Hash)]
pub struct MaybeBigInt(pub u64);

/// What reading a decimal string as an identifier gives.
pub open spec fn spec_parse_big_int(s: Seq<char>) -> Option<MaybeBigInt> {
    match parse_unsigned(s, u64::MAX as int) {
        Some(v) => Some(MaybeBigInt(v as u64)),
        None => None,
    }
}

impl MaybeBigInt {
    /// Reads an identifier from a string as `str::parse::<u64>` does; `None` where
    /// that fails.
    pub fn parse_str(value: &str) -> (r: Option<MaybeBigInt>)
        ensures
            r == spec_parse_big_int(value@),
    {
        match parse_u64(value) {
            Some(v) => Some(MaybeBigInt(v)),
            None => None,
        }
    }

    /// The decimal text of the identifier, as it is displayed and serialized.
    pub fn to_decimal(&self) -> (r: String)
        ensures
            r@ == decimal(self.0 as nat),
    {
        decimal_string(self.0)
    }
}

/// The decimal text of an identifier reads back as that identifier.
pub proof fn lemma_big_int_text_roundtrip(n: MaybeBigInt)
    ensures
        spec_parse_big_int(decimal(n.0 as nat)) == Some(n),
{
    lemma_decimal_parses_back(n.0 as nat, u64::MAX as int);
}

/// A subscription query of the explorer.
#[derive(Debug, Clone, PartialEq, Eq)]
pub enum Query {
    /// Flows with their time span and event count, optionally only counting some event types.
    Flows { event_ids: Vec<MaybeBigInt> },
    /// The registered event types.
    EventTypes,
    /// Event counts per type, optionally for some event types only.
    Stats { event_ids: Vec<MaybeBigInt> },
    /// Events, optionally of some `[batch_id, flow_id]` flows and some event types only.
    Events { flow_ids: Vec<[MaybeBigInt; 2]>, event_ids: Vec<MaybeBigInt> },
}

/// The identifiers in decimal, separated by commas.
pub open spec fn join_ids(ids: Seq<MaybeBigInt>) -> Seq<char>
    decreases ids.len(),
{
    if ids.len() == 0 {
        Seq::empty()
    } else if ids.len() == 1 {
        decimal(ids[0].0 as nat)
    } else {
        join_ids(ids.drop_last()) + seq![','] + decimal(ids.last().0 as nat)
    }
}

/// A flow as a SQL tuple: `(batch_id, flow_id)`.
pub open spec fn pair_text(p: [MaybeBigInt; 2]) -> Seq<char> {
    "("@ + decimal(p[0].0 as nat) + ", "@ + decimal(p[1].0 as nat) + ")"@
}

/// The flows as SQL tuples, separated by commas.
pub open spec fn join_pairs(ps: Seq<[MaybeBigInt; 2]>) -> Seq<char>
    decreases ps.len(),
{
    if ps.len() == 0 {
        Seq::empty()
    } else if ps.len() == 1 {
        pair_text(ps[0])
    } else {
        join_pairs(ps.drop_last()) + seq![','] + pair_text(ps.last())
    }
}

/// `event_type IN (..)` over the identifiers.
pub open spec fn event_filter(ids: Seq<MaybeBigInt>) -> Seq<char> {
    "event_type IN ("@ + join_ids(ids) + ")"@
}

/// `(batch_id, flow_id) IN (..)` over the flows.
pub open spec fn flow_filter(ps: Seq<[MaybeBigInt; 2]>) -> Seq<char> {
    "(batch_id, flow_id) IN ("@ + join_pairs(ps) + ")"@
}

/// ` WHERE event_type IN (..)` when there are identifiers, else nothing.
pub open spec fn optional_event_where(ids: Seq<MaybeBigInt>) -> Seq<char> {
    if ids.len() == 0 {
        Seq::empty()
    } else {
        " WHERE "@ + event_filter(ids)
    }
}

/// The `WHERE` part of an events query: the flow filter and the event filter, each
/// where it has entries, joined by ` AND `.
pub open spec fn events_where(ps: Seq<[MaybeBigInt; 2]>, ids: Seq<MaybeBigInt>) -> Seq<char> {
    if ps.len() == 0 && ids.len() == 0 {
        Seq::empty()
    } else if ids.len() == 0 {
        " WHERE "@ + flow_filter(ps)
    } else if ps.len() == 0 {
        " WHERE "@ + event_filter(ids)
    } else {
        " WHERE "@ + flow_filter(ps) + " AND "@ + event_filter(ids)
    }
}

/// The SQL text of a query.
pub open spec fn query_sql(q: Query) -> Seq<char> {
    match q {
        Query::Flows { event_ids } =>
            "SELECT batch_id, flow_id, min(ts_delta_ns) as start_ts, max(ts_delta_ns) as end_ts, count(*) as event_count FROM events"@
                + optional_event_where(event_ids@) + " GROUP BY (batch_id, flow_id) ORDER BY start_ts DESC"@,
        Query::EventTypes => "SELECT * FROM event_schemas"@,
        Query::Stats { event_ids } =>
            "SELECT event_type, count(*) as count FROM events"@ + optional_event_where(event_ids@)
                + " GROUP BY event_type"@,
        Query::Events { flow_ids, event_ids } =>
            "SELECT ts_delta_ns, batch_id, flow_id, event_type, primary_value, secondary_value FROM events"@
                + events_where(flow_ids@, event_ids@) + " ORDER BY ts_delta_ns"@,
    }
}

fn push_ids(s: &mut String, ids: &Vec<MaybeBigInt>)
    ensures
        final(s)@ == old(s)@ + join_ids(ids@),
{
    let mut i: usize = 0;
    while i < ids.len()
        invariant
            i <= ids@.len(),
            s@ == old(s)@ + join_ids(ids@.subrange(0, i as int)),
        decreases ids@.len() - i,
    {
        if i > 0 {
            push_char(s, ',');
        }
        push_decimal(s, ids[i].0);
        let ghost next = ids@.subrange(0, i + 1);
        assert(next.drop_last() =~= ids@.subrange(0, i as int));
        assert(next.last() == ids@[i as int]);
        i = i + 1;
        assert(s@ =~= old(s)@ + join_ids(ids@.subrange(0, i as int)));
    }
    assert(ids@.subrange(0, i as int) =~= ids@);
}

fn push_pairs(s: &mut String, ps: &Vec<[MaybeBigInt; 2]>)
    ensures
        final(s)@ == old(s)@ + join_pairs(ps@),
{
    let mut i: usize = 0;
    while i < ps.len()
        invariant
            i <= ps@.len(),
            s@ == old(s)@ + join_pairs(ps@.subrange(0, i as int)),
        decreases ps@.len() - i,
    {
        if i > 0 {
            push_char(s, ',');
        }
        let p = ps[i];
        push_str(s, "(");
        push_decimal(s, p[0].0);
        push_str(s, ", ");
        push_decimal(s, p[1].0);
        push_str(s, ")");
        let ghost next = ps@.subrange(0, i + 1);
        assert(next.drop_last() =~= ps@.subrange(0, i as int));
        assert(next.last() == ps@[i as int]);
        i = i + 1;
        assert(s@ =~= old(s)@ + join_pairs(ps@.subrange(0, i as int)));
    }
    assert(ps@.subrange(0, i as int) =~= ps@);
}

fn push_event_filter(s: &mut String, ids: &Vec<MaybeBigInt>)
    ensures
        final(s)@ == old(s)@ + event_filter(ids@),
{
    push_str(s, "event_type IN (");
    push_ids(s, ids);
    push_str(s, ")");
    assert(s@ =~= old(s)@ + event_filter(ids@));
}

fn push_flow_filter(s: &mut String, ps: &Vec<[MaybeBigInt; 2]>)
    ensures
        final(s)@ == old(s)@ + flow_filter(ps@),
{
    push_str(s, "(batch_id, flow_id) IN (");
    push_pairs(s, ps);
    push_str(s, ")");
    assert(s@ =~= old(s)@ + flow_filter(ps@));
}

fn push_optional_event_where(s: &mut String, ids: &Vec<MaybeBigInt>)
    ensures
        final(s)@ == old(s)@ + optional_event_where(ids@),
{
    if ids.len() > 0 {
        push_str(s, " WHERE ");
        push_event_filter(s, ids);
        assert(s@ =~= old(s)@ + optional_event_where(ids@));
    } else {
        assert(s@ =~= old(s)@ + optional_event_where(ids@));
    }
}

impl Query {
    /// The SQL text this query runs.
    pub fn to_sql(&self) -> (r: String)
        ensures
            r@ == query_sql(*self),
    {
        let mut s = String::new();
        match self {
            Query::Flows { event_ids } => {
                push_str(
                    &mut s,
                    "SELECT batch_id, flow_id, min(ts_delta_ns) as start_ts, max(ts_delta_ns) as end_ts, count(*) as event_count FROM events",
                );
                push_optional_event_where(&mut s, event_ids);
                push_str(&mut s, " GROUP BY (batch_id, flow_id) ORDER BY start_ts DESC");
            },
            Query::EventTypes => {
                push_str(&mut s, "SELECT * FROM event_schemas");
            },
            Query::Stats { event_ids } => {
                push_str(&mut s, "SELECT event_type, count(*) as count FROM events");
                push_optional_event_where(&mut s, event_ids);
                push_str(&mut s, " GROUP BY event_type");
            },
            Query::Events { flow_ids, event_ids } => {
                push_str(
                    &mut s,
                    "SELECT ts_delta_ns, batch_id, flow_id, event_type, primary_value, secondary_value FROM events",
                );
                if flow_ids.len() > 0 || event_ids.len() > 0 {
                    push_str(&mut s, " WHERE ");
                    if flow_ids.len() > 0 {
                        push_flow_filter(&mut s, flow_ids);
                        if event_ids.len() > 0 {
                            push_str(&mut s, " AND ");
                        }
                    }
                    if event_ids.len() > 0 {
                        push_event_filter(&mut s, event_ids);
                    }
                }
                push_str(&mut s, " ORDER BY ts_delta_ns");
            },
        }
        assert(s@ =~= query_sql(*self));
        s
    }
}

/// A character that may stand in the text of identifier lists: a decimal digit, or
/// the comma, parentheses and space that separate and group them.
pub open spec fn is_id_list_char(c: char) -> bool {
    is_decimal_digit(c) || c == ',' || c == '(' || c == ')' || c == ' '
}

/// Every character of `s` may stand in an identifier list.
pub open spec fn id_list_text(s: Seq<char>) -> bool {
    forall|i: int| 0 <= i < s.len() ==> is_id_list_char(#[trigger] s[i])
}

proof fn lemma_decimal_is_digits(n: nat)
    ensures
        id_list_text(decimal(n)),
        forall|i: int| 0 <= i < decimal(n).len() ==> is_decimal_digit(#[trigger] decimal(n)[i]),
{
    lemma_radix_repr_value(n, 10, 1);
    assert forall|i: int| 0 <= i < decimal(n).len() implies is_decimal_digit(#[trigger] decimal(n)[i]) by {
        assert(is_digit_of(decimal(n)[i], 10));
    }
}

proof fn lemma_concat_id_text(a: Seq<char>, b: Seq<char>)
    requires
        id_list_text(a),
        id_list_text(b),
    ensures
        id_list_text(a + b),
{
    assert forall|i: int| 0 <= i < (a + b).len() implies is_id_list_char(#[trigger] (a + b)[i]) by {
        if i < a.len() {
            assert((a + b)[i] == a[i]);
        } else {
            assert((a + b)[i] == b[i - a.len()]);
        }
    }
}

/// The identifiers of a query reach its SQL text only as decimal digits: the text of
/// an identifier list holds digits and commas, nothing else.
pub proof fn lemma_ids_text_is_digits(ids: Seq<MaybeBigInt>)
    ensures
        forall|i: int| 0 <= i < join_ids(ids).len() ==> (is_decimal_digit(#[trigger] join_ids(ids)[i])
            || join_ids(ids)[i] == ','),
    decreases ids.len(),
{
    if ids.len() == 1 {
        lemma_decimal_is_digits(ids[0].0 as nat);
    } else if ids.len() > 1 {
        lemma_ids_text_is_digits(ids.drop_last());
        lemma_decimal_is_digits(ids.last().0 as nat);
        let a = join_ids(ids.drop_last()) + seq![','];
        let d = decimal(ids.last().0 as nat);
        assert forall|i: int| 0 <= i < join_ids(ids).len() implies (is_decimal_digit(
            #[trigger] join_ids(ids)[i],
        ) || join_ids(ids)[i] == ',') by {
            if i < join_ids(ids.drop_last()).len() {
                assert(join_ids(ids)[i] == join_ids(ids.drop_last())[i]);
            } else if i < a.len() {
                assert(join_ids(ids)[i] == ',');
            } else {
                assert(join_ids(ids)[i] == d[i - a.len()]);
            }
        }
    }
}

/// The flows of a query reach its SQL text only as decimal digits, grouped by
/// parentheses and separated by commas and spaces.
pub proof fn lemma_pairs_text_is_digits(ps: Seq<[MaybeBigInt; 2]>)
    ensures
        id_list_text(join_pairs(ps)),
    decreases ps.len(),
{
    if ps.len() > 0 {
        let p = ps.last();
        reveal_strlit("(");
        reveal_strlit(", ");
        reveal_strlit(")");
        lemma_decimal_is_digits(p[0].0 as nat);
        lemma_decimal_is_digits(p[1].0 as nat);
        assert(id_list_text("("@));
        assert(id_list_text(", "@));
        assert(id_list_text(")"@));
        lemma_concat_id_text("("@, decimal(p[0].0 as nat));
        lemma_concat_id_text("("@ + decimal(p[0].0 as nat), ", "@);
        lemma_concat_id_text("("@ + decimal(p[0].0 as nat) + ", "@, decimal(p[1].0 as nat));
        lemma_concat_id_text("("@ + decimal(p[0].0 as nat) + ", "@ + decimal(p[1].0 as nat), ")"@);
        if ps.len() > 1 {
            lemma_pairs_text_is_digits(ps.drop_last());
            assert(id_list_text(seq![',']));
            lemma_concat_id_text(join_pairs(ps.drop_last()), seq![',']);
            lemma_concat_id_text(join_pairs(ps.drop_last()) + seq![','], pair_text(p));
        } else {
            assert(p == ps[0]);
        }
    }
}

/// A query has a `WHERE` clause exactly when one of its filter lists is non-empty;
/// without filters its SQL text is the fixed text of its kind.
pub proof fn lemma_where_only_with_filters(q: Query)
    ensures
        match q {
            Query::Flows { event_ids } => (event_ids@.len() == 0) == (optional_event_where(event_ids@).len()
                == 0),
            Query::Stats { event_ids } => (event_ids@.len() == 0) == (optional_event_where(event_ids@).len()
                == 0),
            Query::Events { flow_ids, event_ids } => (flow_ids@.len() == 0 && event_ids@.len() == 0) == (
            events_where(flow_ids@, event_ids@).len() == 0),
            Query::EventTypes => true,
        },
        optional_event_where_starts(q),
{
    reveal_strlit(" WHERE ");
    let w = " WHERE "@;
    match q {
        Query::Flows { event_ids } => {
            assert((w + event_filter(event_ids@)).subrange(0, 7) =~= w);
        },
        Query::Stats { event_ids } => {
            assert((w + event_filter(event_ids@)).subrange(0, 7) =~= w);
        },
        Query::Events { flow_ids, event_ids } => {
            let ff = flow_filter(flow_ids@);
            let ef = event_filter(event_ids@);
            assert((w + ff).subrange(0, 7) =~= w);
            assert((w + ef).subrange(0, 7) =~= w);
            assert((w + ff + " AND "@ + ef).subrange(0, 7) =~= w);
        },
        Query::EventTypes => {},
    }
}

/// Every non-empty filter part of the query's SQL text opens with ` WHERE `.
pub open spec fn optional_event_where_starts(q: Query) -> bool {
    match q {
        Query::Flows { event_ids } => event_ids@.len() > 0 ==> optional_event_where(event_ids@).subrange(0, 7)
            == " WHERE "@,
        Query::Stats { event_ids } => event_ids@.len() > 0 ==> optional_event_where(event_ids@).subrange(0, 7)
            == " WHERE "@,
        Query::Events { flow_ids, event_ids } => (flow_ids@.len() > 0 || event_ids@.len() > 0) ==> events_where(
            flow_ids@,
            event_ids@,
        ).subrange(0, 7) == " WHERE "@,
        Query::EventTypes => true,
    }
}

/// How often `c` occurs in `s`.
pub open spec fn count_char(s: Seq<char>, c: char) -> nat
    decreases s.len(),
{
    if s.len() == 0 {
        0
    } else {
        count_char(s.drop_last(), c) + (if s.last() == c {
            1nat
        } else {
            0nat
        })
    }
}

proof fn lemma_count_concat(a: Seq<char>, b: Seq<char>, c: char)
    ensures
        count_char(a + b, c) == count_char(a, c) + count_char(b, c),
    decreases b.len(),
{
    if b.len() == 0 {
        assert(a + b =~= a);
    } else {
        lemma_count_concat(a, b.drop_last(), c);
        assert((a + b).drop_last() =~= a + b.drop_last());
    }
}

proof fn lemma_count_absent(s: Seq<char>, c: char)
    requires
        forall|i: int| 0 <= i < s.len() ==> s[i] != c,
    ensures
        count_char(s, c) == 0,
    decreases s.len(),
{
    if s.len() > 0 {
        lemma_count_absent(s.drop_last(), c);
    }
}

proof fn lemma_count_once(s: Seq<char>, c: char, j: int)
    requires
        0 <= j < s.len(),
        s[j] == c,
        forall|i: int| 0 <= i < s.len() && i != j ==> s[i] != c,
    ensures
        count_char(s, c) == 1,
{
    let a = s.subrange(0, j);
    let b = s.subrange(j + 1, s.len() as int);
    assert(s =~= a + seq![c] + b);
    assert forall|i: int| 0 <= i < a.len() implies a[i] != c by {
        assert(a[i] == s[i]);
    }
    assert forall|i: int| 0 <= i < b.len() implies b[i] != c by {
        assert(b[i] == s[i + j + 1]);
    }
    lemma_count_absent(a, c);
    lemma_count_absent(b, c);
    assert(seq![c].drop_last() =~= Seq::<char>::empty());
    assert(seq![c].last() == c);
    assert(count_char(seq![c], c) == count_char(Seq::<char>::empty(), c) + 1);
    lemma_count_concat(a, seq![c], c);
    lemma_count_concat(a + seq![c], b, c);
    assert(seq![c].drop_last() =~= Seq::<char>::empty());
}

/// Whether a query filters its rows.
pub open spec fn has_filter(q: Query) -> bool {
    match q {
        Query::Flows { event_ids } => event_ids@.len() > 0,
        Query::Stats { event_ids } => event_ids@.len() > 0,
        Query::Events { flow_ids, event_ids } => flow_ids@.len() > 0 || event_ids@.len() > 0,
        Query::EventTypes => false,
    }
}

proof fn lemma_no_w_in_filters(ids: Seq<MaybeBigInt>, ps: Seq<[MaybeBigInt; 2]>)
    ensures
        count_char(event_filter(ids), 'W') == 0,
        count_char(flow_filter(ps), 'W') == 0,
{
    reveal_strlit("event_type IN (");
    reveal_strlit("(batch_id, flow_id) IN (");
    reveal_strlit(")");
    lemma_ids_text_is_digits(ids);
    lemma_pairs_text_is_digits(ps);
    let e = "event_type IN ("@ + join_ids(ids) + ")"@;
    assert forall|i: int| 0 <= i < e.len() implies e[i] != 'W' by {
        let l = "event_type IN ("@.len();
        if i >= l && i < l + join_ids(ids).len() {
            assert(e[i] == join_ids(ids)[i - l]);
        }
    }
    lemma_count_absent(e, 'W');
    let f = "(batch_id, flow_id) IN ("@ + join_pairs(ps) + ")"@;
    assert forall|i: int| 0 <= i < f.len() implies f[i] != 'W' by {
        let l = "(batch_id, flow_id) IN ("@.len();
        if i >= l && i < l + join_pairs(ps).len() {
            assert(f[i] == join_pairs(ps)[i - l]);
            assert(is_id_list_char(join_pairs(ps)[i - l]));
        }
    }
    lemma_count_absent(f, 'W');
}

/// The SQL text of a query holds the letter `W`, which only ` WHERE ` brings in, once
/// when the query filters its rows and not at all otherwise: no identifier and no
/// other part of the text adds a `WHERE`.
pub proof fn lemma_where_exactly_once_with_filters(q: Query)
    ensures
        count_char(query_sql(q), 'W') == (if has_filter(q) {
            1nat
        } else {
            0nat
        }),
{
    let w = " WHERE "@;
    let and = " AND "@;
    reveal_strlit(" WHERE ");
    reveal_strlit(" AND ");
    lemma_count_once(w, 'W', 1);
    lemma_count_absent(and, 'W');
    let fh = "SELECT batch_id, flow_id, min(ts_delta_ns) as start_ts, max(ts_delta_ns) as end_ts, count(*) as event_count FROM events"@;
    let ft = " GROUP BY (batch_id, flow_id) ORDER BY start_ts DESC"@;
    let sh = "SELECT event_type, count(*) as count FROM events"@;
    let st = " GROUP BY event_type"@;
    let et = "SELECT * FROM event_schemas"@;
    let eh = "SELECT ts_delta_ns, batch_id, flow_id, event_type, primary_value, secondary_value FROM events"@;
    let etl = " ORDER BY ts_delta_ns"@;
    match q {
        Query::Flows { event_ids } => {
            reveal_strlit("SELECT batch_id, flow_id, min(ts_delta_ns) as start_ts, max(ts_delta_ns) as end_ts, count(*) as event_count FROM events");
            reveal_strlit(" GROUP BY (batch_id, flow_id) ORDER BY start_ts DESC");
            lemma_count_absent(fh, 'W');
            lemma_count_absent(ft, 'W');
            let mid = optional_event_where(event_ids@);
            lemma_no_w_in_filters(event_ids@, Seq::empty());
            if event_ids@.len() > 0 {
                lemma_count_concat(w, event_filter(event_ids@), 'W');
            }
            lemma_count_concat(fh, mid, 'W');
            lemma_count_concat(fh + mid, ft, 'W');
        },
        Query::Stats { event_ids } => {
            reveal_strlit("SELECT event_type, count(*) as count FROM events");
            reveal_strlit(" GROUP BY event_type");
            lemma_count_absent(sh, 'W');
            lemma_count_absent(st, 'W');
            let mid = optional_event_where(event_ids@);
            lemma_no_w_in_filters(event_ids@, Seq::empty());
            if event_ids@.len() > 0 {
                lemma_count_concat(w, event_filter(event_ids@), 'W');
            }
            lemma_count_concat(sh, mid, 'W');
            lemma_count_concat(sh + mid, st, 'W');
        },
        Query::EventTypes => {
            reveal_strlit("SELECT * FROM event_schemas");
            lemma_count_absent(et, 'W');
        },
        Query::Events { flow_ids, event_ids } => {
            reveal_strlit("SELECT ts_delta_ns, batch_id, flow_id, event_type, primary_value, secondary_value FROM events");
            reveal_strlit(" ORDER BY ts_delta_ns");
            lemma_count_absent(eh, 'W');
            lemma_count_absent(etl, 'W');
            let ff = flow_filter(flow_ids@);
            let ef = event_filter(event_ids@);
            lemma_no_w_in_filters(event_ids@, flow_ids@);
            lemma_count_concat(w, ff, 'W');
            lemma_count_concat(w, ef, 'W');
            lemma_count_concat(w + ff, and, 'W');
            lemma_count_concat(w + ff + and, ef, 'W');
            let mid = events_where(flow_ids@, event_ids@);
            lemma_count_concat(eh, mid, 'W');
            lemma_count_concat(eh + mid, etl, 'W');
        },
    }
}

/// The text of one identifier is its decimal digits, and of no identifier nothing.
pub proof fn lemma_join_ids_small(x: MaybeBigInt)
    ensures
        join_ids(Seq::<MaybeBigInt>::empty()) == Seq::<char>::empty(),
        join_ids(seq![x]) == decimal(x.0 as nat),
{
}

/// The text of two non-empty identifier lists, one after the other, is the text of
/// the first, one comma, and the text of the second: every identifier of a filter is
/// written, in order, each separated from the next by exactly one comma.
pub proof fn lemma_join_ids_concat(a: Seq<MaybeBigInt>, b: Seq<MaybeBigInt>)
    requires
        a.len() > 0,
        b.len() > 0,
    ensures
        join_ids(a + b) == join_ids(a) + seq![','] + join_ids(b),
    decreases b.len(),
{
    let ab = a + b;
    assert(ab.last() == b.last());
    if b.len() == 1 {
        assert(ab.drop_last() =~= a);
        assert(b[0] == b.last());
    } else {
        assert(ab.drop_last() =~= a + b.drop_last());
        lemma_join_ids_concat(a, b.drop_last());
        assert(join_ids(ab) =~= join_ids(a) + seq![','] + join_ids(b));
    }
}

/// The identifier list of `n` identifiers holds `n - 1` commas: one field per identifier.
pub proof fn lemma_join_ids_fields(ids: Seq<MaybeBigInt>)
    requires
        ids.len() > 0,
    ensures
        count_char(join_ids(ids), ',') + 1 == ids.len(),
    decreases ids.len(),
{
    lemma_decimal_is_digits(ids.last().0 as nat);
    let d = decimal(ids.last().0 as nat);
    assert forall|i: int| 0 <= i < d.len() implies d[i] != ',' by {
        assert(is_decimal_digit(d[i]));
    }
    lemma_count_absent(d, ',');
    if ids.len() > 1 {
        lemma_join_ids_fields(ids.drop_last());
        let head = join_ids(ids.drop_last());
        lemma_count_concat(head, seq![','], ',');
        lemma_count_concat(head + seq![','], d, ',');
        assert(seq![','].drop_last() =~= Seq::<char>::empty());
        assert(seq![','].last() == ',');
        assert(count_char(Seq::<char>::empty(), ',') == 0);
        assert(count_char(seq![','], ',') == 1);
    } else {
        assert(join_ids(ids) == d);
    }
}

/// The text of two non-empty flow lists, one after the other, is the text of the
/// first, one comma, and the text of the second: every flow is written once, in order.
pub proof fn lemma_join_pairs_concat(a: Seq<[MaybeBigInt; 2]>, b: Seq<[MaybeBigInt; 2]>)
    requires
        a.len() > 0,
        b.len() > 0,
    ensures
        join_pairs(a + b) == join_pairs(a) + seq![','] + join_pairs(b),
        join_pairs(seq![b[0]]) == pair_text(b[0]),
    decreases b.len(),
{
    let ab = a + b;
    assert(ab.last() == b.last());
    if b.len() == 1 {
        assert(ab.drop_last() =~= a);
        assert(b[0] == b.last());
    } else {
        assert(ab.drop_last() =~= a + b.drop_last());
        lemma_join_pairs_concat(a, b.drop_last());
        assert(join_pairs(ab) =~= join_pairs(a) + seq![','] + join_pairs(b));
    }
}

} // verus!
