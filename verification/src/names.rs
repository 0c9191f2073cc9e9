//! Names of the files a tracer writes and an ingester reads.
use vstd::prelude::*;
use crate::text::radix_repr;
use crate::text::digits_value;
use crate::text::push_str;
use crate::text::push_radix;
use crate::text::lemma_radix_repr_value;

verus! {

/// `{:0width$x}` of `n`: lower-case hexadecimal, at least `width` digits.
pub open spec fn hex(n: u64, width: nat) -> Seq<char> {
    radix_repr(n as nat, 16, width)
}

/// `trace_{batch_start:016x}_{counter:08x}.bin`.
pub open spec fn trace_name(batch_start_ns: u64, counter: u64) -> Seq<char> {
    "trace_"@ + hex(batch_start_ns, 16) + "_"@ + hex(counter, 8) + ".bin"@
}

/// `event_schema_{version:016x}.json`.
pub open spec fn schema_name(version: u64) -> Seq<char> {
    "event_schema_"@ + hex(version, 16) + ".json"@
}

/// The name of the trace file of batch number `counter` of the tracer started at
/// `batch_start_ns`.
pub fn trace_file_name(batch_start_ns: u64, counter: u64) -> (r: String)
    ensures
        r@ == trace_name(batch_start_ns, counter),
{
    let mut s = String::new();
    push_str(&mut s, "trace_");
    push_radix(&mut s, batch_start_ns, 16, 16);
    push_str(&mut s, "_");
    push_radix(&mut s, counter, 16, 8);
    push_str(&mut s, ".bin");
    assert(s@ =~= trace_name(batch_start_ns, counter));
    s
}

/// The name of the schema file of schema version `version`.
pub fn schema_file_name(version: u64) -> (r: String)
    ensures
        r@ == schema_name(version),
{
    let mut s = String::new();
    push_str(&mut s, "event_schema_");
    push_radix(&mut s, version, 16, 16);
    push_str(&mut s, ".json");
    assert(s@ =~= schema_name(version));
    s
}

/// `a + x + b == a + y + b` forces `x == y`.
proof fn lemma_cancel_affixes(a: Seq<char>, x: Seq<char>, y: Seq<char>, b: Seq<char>)
    requires
        a + x + b == a + y + b,
    ensures
        x == y,
{
    let l = a + x + b;
    let r = a + y + b;
    assert(l.len() == r.len());
    assert(x.len() == y.len());
    assert forall|i: int| 0 <= i < x.len() implies x[i] == y[i] by {
        assert(l[a.len() + i] == x[i]);
        assert(r[a.len() + i] == y[i]);
    }
    assert(x =~= y);
}

/// Each batch of a tracer gets its own file: distinct batch counters give distinct
/// trace file names.
pub proof fn lemma_trace_names_distinct(batch_start_ns: u64, c1: u64, c2: u64)
    requires
        c1 != c2,
    ensures
        trace_name(batch_start_ns, c1) != trace_name(batch_start_ns, c2),
{
    let a = "trace_"@ + hex(batch_start_ns, 16) + "_"@;
    if trace_name(batch_start_ns, c1) == trace_name(batch_start_ns, c2) {
        assert(trace_name(batch_start_ns, c1) == a + hex(c1, 8) + ".bin"@);
        assert(trace_name(batch_start_ns, c2) == a + hex(c2, 8) + ".bin"@);
        lemma_cancel_affixes(a, hex(c1, 8), hex(c2, 8), ".bin"@);
        lemma_radix_repr_value(c1 as nat, 16, 8);
        lemma_radix_repr_value(c2 as nat, 16, 8);
        assert(digits_value(hex(c1, 8), 16) == digits_value(hex(c2, 8), 16));
    }
}

/// Distinct schema versions get distinct schema file names.
pub proof fn lemma_schema_names_distinct(v1: u64, v2: u64)
    requires
        v1 != v2,
    ensures
        schema_name(v1) != schema_name(v2),
{
    if schema_name(v1) == schema_name(v2) {
        lemma_cancel_affixes("event_schema_"@, hex(v1, 16), hex(v2, 16), ".json"@);
        lemma_radix_repr_value(v1 as nat, 16, 16);
        lemma_radix_repr_value(v2 as nat, 16, 16);
    }
}

} // verus!
