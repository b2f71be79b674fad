//! Gate evaluation: choosing which phase-transition gate may fire under the
//! observed metrics, deterministically, one firing per tick.

use vstd::prelude::*;

verus! {

use vstd::view::DeepView;
use vstd::string::StringSliceAdditionalSpecFns;
use vstd::utf8::encode_utf8;
use crate::authority::{AuthorityOverlay, AbsOverlay, assoc_get};
use crate::bytes::lex_lt;
use crate::hash::spec_tagged_sha256;
use crate::json::{JsonValue, JsonField, wf, spec_ser, spec_json_eq, spec_is_num, spec_num_sign};
use crate::policy::{assoc_get_from, key_first_match};
use crate::state::{PhaseState, AbsPhaseState};
use crate::types::{CriterionOp, GateApproval, GateDirection, GateEnforcement};

/// A single metric comparison.
pub struct Criterion {
    pub metric: String,
    pub op: CriterionOp,
    pub window_seconds: Option<u64>,
    pub value: JsonValue,
}

/// The value of a criterion.
pub struct AbsCriterion {
    pub metric: Seq<char>,
    pub op: CriterionOp,
    pub window_seconds: Option<u64>,
    pub value: JsonValue,
}

impl DeepView for Criterion {
    type V = AbsCriterion;

    open spec fn deep_view(&self) -> AbsCriterion {
        AbsCriterion {
            metric: self.metric@,
            op: self.op,
            window_seconds: self.window_seconds,
            value: self.value,
        }
    }
}

/// The declared JSON type of a metric.
pub struct MetricSchema {
    pub metric_type: String,
}

/// The value of a metric schema entry.
pub struct AbsMetricSchema {
    pub metric_type: Seq<char>,
}

impl DeepView for MetricSchema {
    type V = AbsMetricSchema;

    open spec fn deep_view(&self) -> AbsMetricSchema {
        AbsMetricSchema { metric_type: self.metric_type@ }
    }
}

/// The on-pass effect of a gate.
pub struct GateEffect {
    pub authority_overlay: Option<AuthorityOverlay>,
}

/// The value of a gate effect.
pub struct AbsGateEffect {
    pub authority_overlay: Option<AbsOverlay>,
}

impl DeepView for GateEffect {
    type V = AbsGateEffect;

    open spec fn deep_view(&self) -> AbsGateEffect {
        AbsGateEffect { authority_overlay: self.authority_overlay.deep_view() }
    }
}

/// A declared phase-transition gate.
pub struct Gate {
    pub id: String,
    pub direction: GateDirection,
    pub enforcement: GateEnforcement,
    pub priority: i32,
    pub cooldown_seconds: u64,
    pub from_phase: Option<String>,
    pub to_phase: String,
    pub criteria: Vec<Criterion>,
    pub metrics_schema: Option<Vec<(String, MetricSchema)>>,
    pub approval: GateApproval,
    pub on_pass: Option<GateEffect>,
}

/// The value of a gate.
pub struct AbsGate {
    pub id: Seq<char>,
    pub direction: GateDirection,
    pub enforcement: GateEnforcement,
    pub priority: i32,
    pub cooldown_seconds: u64,
    pub from_phase: Option<Seq<char>>,
    pub to_phase: Seq<char>,
    pub criteria: Seq<AbsCriterion>,
    pub metrics_schema: Option<Seq<(Seq<char>, AbsMetricSchema)>>,
    pub approval: GateApproval,
    pub on_pass: Option<AbsGateEffect>,
}

impl DeepView for Gate {
    type V = AbsGate;

    open spec fn deep_view(&self) -> AbsGate {
        AbsGate {
            id: self.id@,
            direction: self.direction,
            enforcement: self.enforcement,
            priority: self.priority,
            cooldown_seconds: self.cooldown_seconds,
            from_phase: self.from_phase.deep_view(),
            to_phase: self.to_phase@,
            criteria: self.criteria.deep_view(),
            metrics_schema: self.metrics_schema.deep_view(),
            approval: self.approval,
            on_pass: self.on_pass.deep_view(),
        }
    }
}

/// A query for a metric value.
pub struct MetricQuery {
    pub name: String,
    pub window_seconds: Option<u64>,
}

/// A metric sample.
pub struct MetricSample {
    pub name: String,
    pub value: JsonValue,
    pub sampled_at: i64,
}

/// Why a metric could not be fetched.
#[derive(Debug, Clone)]
pub enum MetricError {
    NotFound(String),
    TypeMismatch(String),
    ProviderUnavailable,
}

/// A table of named metric values; the deterministic metrics source the
/// evaluator reads.
pub struct MetricsTable {
    pub entries: Vec<(String, JsonValue)>,
}

impl DeepView for MetricsTable {
    type V = Seq<(Seq<char>, JsonValue)>;

    open spec fn deep_view(&self) -> Seq<(Seq<char>, JsonValue)> {
        Seq::new(self.entries@.len(), |i: int| (self.entries@[i].0@, self.entries@[i].1))
    }
}

/// Every value in the table is well-formed.
pub open spec fn wf_table(t: Seq<(Seq<char>, JsonValue)>) -> bool {
    forall|i: int| 0 <= i < t.len() ==> wf((#[trigger] t[i]).1)
}

/// Every criterion value of every gate is well-formed.
pub open spec fn wf_gates(gs: Seq<AbsGate>) -> bool {
    forall|i: int, j: int|
        0 <= i < gs.len() && 0 <= j < (#[trigger] gs[i]).criteria.len() ==> wf(
            #[trigger] gs[i].criteria[j].value,
        )
}

impl MetricsTable {
    /// An empty table.
    pub fn new() -> (r: MetricsTable)
        ensures
            r.deep_view().len() == 0,
    {
        let r = MetricsTable { entries: Vec::new() };
        r
    }

    /// Add a sample at the end of the table (first entry with a name wins on
    /// lookup).
    pub fn insert(&mut self, name: &str, value: JsonValue)
        ensures
            final(self).deep_view() == old(self).deep_view().push((name@, value)),
    {
        let ghost pre = self.deep_view();
        let ghost vv = value;
        self.entries.push((name.to_owned(), value));
        proof {
            assert(self.deep_view() =~= pre.push((name@, vv)));
        }
    }

    /// Look a metric up by name; the window of a query does not narrow a
    /// plain table.
    pub fn get_metric<'a>(&'a self, query: &MetricQuery) -> (r: Result<&'a JsonValue, MetricError>)
        ensures
            match r {
                Ok(v) => assoc_get(self.deep_view(), query.name@) == Some(*v),
                Err(_) => assoc_get(self.deep_view(), query.name@) is None,
            },
    {
        let ghost tv = self.deep_view();
        let mut i: usize = 0;
        proof {
            crate::policy::lemma_assoc_get_zero(tv, query.name@);
        }
        while i < self.entries.len()
            invariant
                i <= self.entries@.len(),
                tv == self.deep_view(),
                tv.len() == self.entries@.len(),
                assoc_get(tv, query.name@) == assoc_get_from(tv, query.name@, i as int),
            decreases self.entries@.len() - i,
        {
            proof {
                assert(tv[i as int] == (self.entries@[i as int].0@, self.entries@[i as int].1));
            }
            if crate::bytes::str_eq(self.entries[i].0.as_str(), query.name.as_str()) {
                proof {
                    key_first_match(tv, query.name@, i as int);
                }
                return Ok(&self.entries[i].1);
            }
            i = i + 1;
            proof {
                crate::policy::lemma_assoc_get_next(tv, query.name@, i as int - 1);
            }
        }
        proof {
            crate::policy::lemma_assoc_get_exhausted(tv, query.name@);
        }
        Err(MetricError::NotFound(query.name.clone()))
    }
}

// ---------------------------------------------------------------------------
// Criterion evaluation.
// ---------------------------------------------------------------------------

/// Comparison of two JSON values under a criterion operator: equality is
/// structural; the ordered operators apply to numbers only.
pub open spec fn spec_compare(op: CriterionOp, actual: JsonValue, expected: JsonValue) -> bool {
    match op {
        CriterionOp::Eq => spec_json_eq(actual, expected),
        CriterionOp::Neq => !spec_json_eq(actual, expected),
        CriterionOp::Gt => spec_is_num(actual) && spec_is_num(expected) && spec_num_sign(
            actual,
            expected,
        ) == 1,
        CriterionOp::Gte => spec_is_num(actual) && spec_is_num(expected) && spec_num_sign(
            actual,
            expected,
        ) != -1,
        CriterionOp::Lt => spec_is_num(actual) && spec_is_num(expected) && spec_num_sign(
            actual,
            expected,
        ) == -1,
        CriterionOp::Lte => spec_is_num(actual) && spec_is_num(expected) && spec_num_sign(
            actual,
            expected,
        ) != 1,
    }
}

/// Compare two values under an operator.
pub fn compare_values(op: &CriterionOp, actual: &JsonValue, expected: &JsonValue) -> (r: bool)
    requires
        wf(*actual),
        wf(*expected),
    ensures
        r == spec_compare(*op, *actual, *expected),
{
    match op {
        CriterionOp::Eq => crate::json::json_eq(actual, expected),
        CriterionOp::Neq => !crate::json::json_eq(actual, expected),
        CriterionOp::Gt => match crate::json::num_cmp(actual, expected) {
            Some(c) => c == 1,
            None => false,
        },
        CriterionOp::Gte => match crate::json::num_cmp(actual, expected) {
            Some(c) => c != -1,
            None => false,
        },
        CriterionOp::Lt => match crate::json::num_cmp(actual, expected) {
            Some(c) => c == -1,
            None => false,
        },
        CriterionOp::Lte => match crate::json::num_cmp(actual, expected) {
            Some(c) => c != 1,
            None => false,
        },
    }
}

/// Whether a fetched value disagrees with the declared type of its metric.
/// Unknown declared types check nothing.
pub open spec fn spec_mismatch(
    name: Seq<char>,
    v: JsonValue,
    schema: Option<Seq<(Seq<char>, AbsMetricSchema)>>,
) -> bool {
    match schema {
        None => false,
        Some(sch) => match assoc_get(sch, name) {
            None => false,
            Some(ms) => {
                let t = ms.metric_type;
                if t == "number"@ || t == "numeric"@ || t == "float"@ {
                    !spec_is_num(v)
                } else if t == "integer"@ {
                    !(v is Int)
                } else if t == "boolean"@ || t == "bool"@ {
                    !(v is Bool)
                } else if t == "string"@ {
                    !(v is Str)
                } else {
                    false
                }
            },
        },
    }
}

fn schema_get<'a>(list: &'a Vec<(String, MetricSchema)>, key: &str) -> (r: Option<
    &'a MetricSchema,
>)
    ensures
        match r {
            Some(m) => assoc_get(list.deep_view(), key@) == Some(m.deep_view()),
            None => assoc_get(list.deep_view(), key@) is None,
        },
{
    let ghost lv = list.deep_view();
    let mut i: usize = 0;
    proof {
        crate::policy::lemma_assoc_get_zero(lv, key@);
    }
    while i < list.len()
        invariant
            i <= list@.len(),
            lv == list.deep_view(),
            lv.len() == list@.len(),
            assoc_get(lv, key@) == assoc_get_from(lv, key@, i as int),
        decreases list@.len() - i,
    {
        proof {
            assert(lv[i as int] == (list@[i as int].0@, list@[i as int].1.deep_view()));
        }
        if crate::bytes::str_eq(list[i].0.as_str(), key) {
            proof {
                key_first_match(lv, key@, i as int);
            }
            return Some(&list[i].1);
        }
        i = i + 1;
        proof {
            crate::policy::lemma_assoc_get_next(lv, key@, i as int - 1);
        }
    }
    proof {
        crate::policy::lemma_assoc_get_exhausted(lv, key@);
    }
    None
}

/// Check a metric value against the declared schema type; a mismatch comes
/// back as a description.
pub fn check_metric_type(
    metric_name: &str,
    value: &JsonValue,
    schema: Option<&Vec<(String, MetricSchema)>>,
) -> (r: Option<String>)
    ensures
        (r is Some) == spec_mismatch(
            metric_name@,
            *value,
            match schema {
                Some(s) => Some(s.deep_view()),
                None => None,
            },
        ),
{
    let sch = match schema {
        Some(s) => s,
        None => {
            return None;
        },
    };
    let ms = match schema_get(sch, metric_name) {
        Some(m) => m,
        None => {
            return None;
        },
    };
    let t = ms.metric_type.as_str();
    let matches_type = if crate::bytes::str_eq(t, "number") || crate::bytes::str_eq(t, "numeric")
        || crate::bytes::str_eq(t, "float") {
        value.is_number()
    } else if crate::bytes::str_eq(t, "integer") {
        value.is_integer()
    } else if crate::bytes::str_eq(t, "boolean") || crate::bytes::str_eq(t, "bool") {
        value.is_boolean()
    } else if crate::bytes::str_eq(t, "string") {
        value.is_string()
    } else {
        true
    };
    if matches_type {
        None
    } else {
        let mut d = String::new();
        vstd::string::StringExecFns::append(&mut d, "metric value type disagrees with the schema");
        Some(d)
    }
}

/// Whether one criterion passes: a missing metric fails it; a type mismatch
/// fails closed by direction (a demote gate treats it as a pass, a promote
/// gate as a fail); otherwise the declared comparison decides.
pub open spec fn spec_crit_pass(
    c: AbsCriterion,
    table: Seq<(Seq<char>, JsonValue)>,
    direction: GateDirection,
    schema: Option<Seq<(Seq<char>, AbsMetricSchema)>>,
) -> bool {
    match assoc_get(table, c.metric) {
        None => false,
        Some(v) => if spec_mismatch(c.metric, v, schema) {
            direction == GateDirection::Demote
        } else {
            spec_compare(c.op, v, c.value)
        },
    }
}

/// Whether every criterion from index `j` on passes.
pub open spec fn spec_all_pass(
    criteria: Seq<AbsCriterion>,
    table: Seq<(Seq<char>, JsonValue)>,
    direction: GateDirection,
    schema: Option<Seq<(Seq<char>, AbsMetricSchema)>>,
    j: int,
) -> bool
    decreases criteria.len() - j,
{
    if j < 0 || j >= criteria.len() {
        true
    } else {
        spec_crit_pass(criteria[j], table, direction, schema) && spec_all_pass(
            criteria,
            table,
            direction,
            schema,
            j + 1,
        )
    }
}

/// The result of evaluating a single criterion.
pub struct CriteriaResult {
    pub metric: String,
    pub op: CriterionOp,
    pub value: JsonValue,
    pub actual: JsonValue,
    pub pass: bool,
    pub type_mismatch: Option<String>,
}

// ---------------------------------------------------------------------------
// Metric snapshots and their hash.
// ---------------------------------------------------------------------------

/// The name/serialization view of snapshot fields.
pub open spec fn snap_view(s: Seq<JsonField>) -> Seq<(Seq<u8>, Seq<u8>)> {
    Seq::new(s.len(), |i: int| (encode_utf8(s[i].key@), spec_ser(s[i].value)))
}

/// Sorted insert (by byte order of names, replacing an equal name) into a
/// name/serialization list.
pub open spec fn spec_snap_insert(
    s: Seq<(Seq<u8>, Seq<u8>)>,
    k: Seq<u8>,
    v: Seq<u8>,
) -> Seq<(Seq<u8>, Seq<u8>)>
    decreases s.len(),
{
    if s.len() == 0 {
        seq![(k, v)]
    } else if s[0].0 == k {
        seq![(k, v)] + s.drop_first()
    } else if lex_lt(k, s[0].0) {
        seq![(k, v)] + s
    } else {
        seq![s[0]] + spec_snap_insert(s.drop_first(), k, v)
    }
}

/// The snapshot after fetching the metrics of the criteria from index `j`:
/// each successfully fetched metric is recorded under its name.
pub open spec fn spec_snapshot(
    criteria: Seq<AbsCriterion>,
    table: Seq<(Seq<char>, JsonValue)>,
    j: int,
    acc: Seq<(Seq<u8>, Seq<u8>)>,
) -> Seq<(Seq<u8>, Seq<u8>)>
    decreases criteria.len() - j,
{
    if j < 0 || j >= criteria.len() {
        acc
    } else {
        let acc2 = match assoc_get(table, criteria[j].metric) {
            Some(v) => spec_snap_insert(acc, encode_utf8(criteria[j].metric), spec_ser(v)),
            None => acc,
        };
        spec_snapshot(criteria, table, j + 1, acc2)
    }
}

/// The `name:value` pairs of a snapshot joined with commas.
pub open spec fn spec_snap_joined(sv: Seq<(Seq<u8>, Seq<u8>)>, j: int) -> Seq<u8>
    decreases sv.len() - j,
{
    if j < 0 || j >= sv.len() {
        Seq::empty()
    } else {
        let sep: Seq<u8> = if j > 0 {
            seq![0x2cu8]
        } else {
            Seq::empty()
        };
        sep + sv[j].0 + seq![0x3au8] + sv[j].1 + spec_snap_joined(sv, j + 1)
    }
}

/// The deterministic metrics hash: the tagged SHA-256 of the sorted
/// `name:value` pairs.
pub open spec fn spec_metrics_hash(sv: Seq<(Seq<u8>, Seq<u8>)>) -> Seq<u8> {
    spec_tagged_sha256(spec_snap_joined(sv, 0))
}

proof fn lemma_snap_insert_found(s: Seq<(Seq<u8>, Seq<u8>)>, k: Seq<u8>, v: Seq<u8>, i: int)
    requires
        0 <= i < s.len(),
        s[i].0 == k,
        forall|j: int| 0 <= j < i ==> lex_lt((#[trigger] s[j]).0, k),
    ensures
        spec_snap_insert(s, k, v) == s.update(i, (k, v)),
    decreases i,
{
    crate::bytes::lemma_lex_lt_total(k, s[0].0);
    if i == 0 {
        assert(spec_snap_insert(s, k, v) =~= s.update(0, (k, v)));
    } else {
        let rest = s.drop_first();
        assert(forall|j: int| 0 <= j < i - 1 ==> lex_lt((#[trigger] rest[j]).0, k));
        lemma_snap_insert_found(rest, k, v, i - 1);
        assert(seq![s[0]] + rest.update(i - 1, (k, v)) =~= s.update(i, (k, v)));
    }
}

proof fn lemma_snap_insert_missing(s: Seq<(Seq<u8>, Seq<u8>)>, k: Seq<u8>, v: Seq<u8>, i: int)
    requires
        0 <= i <= s.len(),
        forall|j: int| 0 <= j < i ==> lex_lt((#[trigger] s[j]).0, k),
        i < s.len() ==> lex_lt(k, s[i].0),
    ensures
        spec_snap_insert(s, k, v) == s.insert(i, (k, v)),
    decreases i,
{
    if s.len() == 0 {
        assert(spec_snap_insert(s, k, v) =~= s.insert(0, (k, v)));
    } else {
        crate::bytes::lemma_lex_lt_total(k, s[0].0);
        if i == 0 {
            assert(spec_snap_insert(s, k, v) =~= s.insert(0, (k, v)));
        } else {
            let rest = s.drop_first();
            assert(forall|j: int| 0 <= j < i - 1 ==> lex_lt((#[trigger] rest[j]).0, k));
            assert(i - 1 < rest.len() ==> rest[i - 1] == s[i]);
            lemma_snap_insert_missing(rest, k, v, i - 1);
            assert(seq![s[0]] + rest.insert(i - 1, (k, v)) =~= s.insert(i, (k, v)));
        }
    }
}

/// Record a fetched metric in the snapshot, keeping names sorted.
#[verifier::rlimit(50)]
pub fn snap_set(fields: &mut Vec<JsonField>, name: &str, value: JsonValue)
    requires
        crate::json::sorted_keys(old(fields)@),
        crate::json::wf_obj(old(fields)@, 0),
        wf(value),
    ensures
        crate::json::sorted_keys(final(fields)@),
        crate::json::wf_obj(final(fields)@, 0),
        snap_view(final(fields)@) == spec_snap_insert(
            snap_view(old(fields)@),
            name.spec_bytes(),
            spec_ser(value),
        ),
{
    let ghost s0 = fields@;
    let ghost sv0 = snap_view(fields@);
    let kb = name.as_bytes();
    let mut i: usize = 0;
    while i < fields.len() && crate::bytes::bytes_lt(fields[i].key.as_str().as_bytes(), kb)
        invariant
            i <= fields@.len(),
            fields@ == s0,
            kb@ == name.spec_bytes(),
            forall|j: int| 0 <= j < i ==> lex_lt((#[trigger] snap_view(s0)[j]).0, name.spec_bytes()),
        decreases fields@.len() - i,
    {
        proof {
            assert(snap_view(s0)[i as int].0 == encode_utf8(s0[i as int].key@));
        }
        i = i + 1;
    }
    proof {
        if i < s0.len() {
            assert(snap_view(s0)[i as int].0 == encode_utf8(s0[i as int].key@));
        }
    }
    if i < fields.len() && crate::bytes::bytes_eq(fields[i].key.as_str().as_bytes(), kb) {
        let ghost vv = spec_ser(value);
        let f = JsonField { key: name.to_owned(), value };
        let ghost fv = f;
        vstd::pervasive::VecAdditionalExecFns::set(fields, i, f);
        proof {
            assert(fields@ == s0.update(i as int, fv));
            lemma_snap_insert_found(sv0, name.spec_bytes(), vv, i as int);
            assert(sv0[i as int].0 == encode_utf8(s0[i as int].key@));
            assert(snap_view(fields@) =~= sv0.update(i as int, (name.spec_bytes(), vv)));
            assert forall|a: int, b: int|
                0 <= a < b < fields@.len() && b == a + 1 implies crate::json::key_lt(
                fields@[a].key@,
                fields@[b].key@,
            ) by {
                if a != i && b != i {
                    assert(fields@[a] == s0[a] && fields@[b] == s0[b]);
                } else if a == i {
                    assert(fields@[b] == s0[b]);
                    assert(encode_utf8(fields@[a].key@) == kb@);
                    assert(lex_lt(encode_utf8(s0[a].key@), encode_utf8(s0[b].key@)));
                    crate::bytes::lemma_lex_lt_total(encode_utf8(s0[a].key@), kb@);
                } else {
                    assert(fields@[a] == s0[a]);
                    assert(encode_utf8(fields@[b].key@) == kb@);
                    assert(lex_lt(encode_utf8(s0[a].key@), kb@));
                }
            }
            crate::json::lemma_wf_obj_update(s0, i as int, fv);
        }
    } else {
        proof {
            if i < s0.len() {
                crate::bytes::lemma_lex_lt_total(name.spec_bytes(), encode_utf8(s0[i as int].key@));
                assert(lex_lt(name.spec_bytes(), encode_utf8(s0[i as int].key@)));
            }
        }
        let ghost vv = spec_ser(value);
        let f = JsonField { key: name.to_owned(), value };
        let ghost fv = f;
        fields.insert(i, f);
        proof {
            assert(fields@ == s0.insert(i as int, fv));
            lemma_snap_insert_missing(sv0, name.spec_bytes(), vv, i as int);
            let target = sv0.insert(i as int, (name.spec_bytes(), vv));
            assert forall|j2: int|
                0 <= j2 < fields@.len() implies snap_view(fields@)[j2] == target[j2] by {
                if j2 < i {
                    assert(fields@[j2] == s0[j2]);
                    assert(target[j2] == sv0[j2]);
                } else if j2 == i {
                    assert(fields@[j2] == fv);
                    assert(fv.key@ == name@);
                } else {
                    assert(fields@[j2] == s0[j2 - 1]);
                    assert(target[j2] == sv0[j2 - 1]);
                }
            }
            assert(snap_view(fields@) =~= sv0.insert(i as int, (name.spec_bytes(), vv)));
            assert forall|a: int|
                0 <= a < fields@.len() - 1 implies crate::json::key_lt(
                (#[trigger] fields@[a]).key@,
                fields@[a + 1].key@,
            ) by {
                if a + 1 < i {
                    assert(fields@[a] == s0[a] && fields@[a + 1] == s0[a + 1]);
                    assert(crate::json::key_lt(s0[a].key@, s0[a + 1].key@));
                } else if a + 1 == i {
                    assert(fields@[a] == s0[a]);
                    assert(snap_view(s0)[a].0 == encode_utf8(s0[a].key@));
                    assert(lex_lt(snap_view(s0)[a].0, name.spec_bytes()));
                    assert(encode_utf8(fields@[a + 1].key@) == kb@);
                } else if a == i {
                    assert(fields@[a + 1] == s0[a]);
                    assert(encode_utf8(fields@[a].key@) == kb@);
                    assert(lex_lt(name.spec_bytes(), encode_utf8(s0[a].key@)));
                } else {
                    assert(fields@[a] == s0[a - 1] && fields@[a + 1] == s0[a]);
                    assert(crate::json::key_lt(s0[a - 1].key@, s0[a].key@));
                }
            }
            crate::json::lemma_wf_obj_insert(s0, i as int, fv);
        }
    }
}


// ---------------------------------------------------------------------------
// Criteria evaluation.
// ---------------------------------------------------------------------------

/// What one recorded criterion result says: its criterion's name and
/// operator, the pass verdict, the expected value, and the fetched value
/// with its type-mismatch marker (`Null` and no marker when the metric was
/// unavailable).
pub open spec fn spec_result_ok(
    res: CriteriaResult,
    c: AbsCriterion,
    table: Seq<(Seq<char>, JsonValue)>,
    direction: GateDirection,
    schema: Option<Seq<(Seq<char>, AbsMetricSchema)>>,
) -> bool {
    &&& res.metric@ == c.metric
    &&& res.op == c.op
    &&& res.pass == spec_crit_pass(c, table, direction, schema)
    &&& spec_ser(res.value) == spec_ser(c.value)
    &&& match assoc_get(table, c.metric) {
        Some(v) => spec_ser(res.actual) == spec_ser(v) && (res.type_mismatch is Some)
            == spec_mismatch(c.metric, v, schema),
        None => res.actual is Null && res.type_mismatch is None,
    }
}

/// Evaluates gates against a metrics table.
pub struct DefaultGateEvaluator;

impl DefaultGateEvaluator {
    /// Evaluate every criterion of a gate: a triple of whether all passed,
    /// the per-criterion results, and the snapshot of fetched metrics.
    pub fn evaluate_criteria(
        &self,
        criteria: &Vec<Criterion>,
        metrics: &MetricsTable,
        direction: GateDirection,
        metrics_schema: Option<&Vec<(String, MetricSchema)>>,
    ) -> (r: (bool, Vec<CriteriaResult>, Vec<JsonField>))
        requires
            wf_table(metrics.deep_view()),
            forall|j: int|
                0 <= j < criteria.deep_view().len() ==> wf(
                    (#[trigger] criteria.deep_view()[j]).value,
                ),
        ensures
            r.0 == spec_all_pass(
                criteria.deep_view(),
                metrics.deep_view(),
                direction,
                spec_schema_of(metrics_schema),
                0,
            ),
            r.1@.len() == criteria.deep_view().len(),
            forall|j: int|
                0 <= j < criteria.deep_view().len() ==> spec_result_ok(
                    r.1@[j],
                    #[trigger] criteria.deep_view()[j],
                    metrics.deep_view(),
                    direction,
                    spec_schema_of(metrics_schema),
                ),
            crate::json::sorted_keys(r.2@),
            crate::json::wf_obj(r.2@, 0),
            snap_view(r.2@) == spec_snapshot(
                criteria.deep_view(),
                metrics.deep_view(),
                0,
                Seq::empty(),
            ),
    {
        let ghost cv = criteria.deep_view();
        let ghost tv = metrics.deep_view();
        let ghost sv = spec_schema_of(metrics_schema);
        let mut all_pass = true;
        let mut results: Vec<CriteriaResult> = Vec::new();
        let mut snapshot: Vec<JsonField> = Vec::new();
        let mut j: usize = 0;
        proof {
            assert(snap_view(snapshot@) =~= Seq::<(Seq<u8>, Seq<u8>)>::empty());
        }
        while j < criteria.len()
            invariant
                j <= criteria@.len(),
                cv == criteria.deep_view(),
                tv == metrics.deep_view(),
                sv == spec_schema_of(metrics_schema),
                cv.len() == criteria@.len(),
                wf_table(tv),
                forall|k: int| 0 <= k < cv.len() ==> wf((#[trigger] cv[k]).value),
                (all_pass && spec_all_pass(cv, tv, direction, sv, j as int)) == spec_all_pass(
                    cv,
                    tv,
                    direction,
                    sv,
                    0,
                ),
                results@.len() == j,
                forall|k: int|
                    0 <= k < j ==> spec_result_ok(results@[k], #[trigger] cv[k], tv, direction, sv),
                crate::json::sorted_keys(snapshot@),
                crate::json::wf_obj(snapshot@, 0),
                spec_snapshot(cv, tv, j as int, snap_view(snapshot@)) == spec_snapshot(
                    cv,
                    tv,
                    0,
                    Seq::empty(),
                ),
            decreases criteria@.len() - j,
        {
            proof {
                assert(cv[j as int] == criteria@[j as int].deep_view());
            }
            let criterion = &criteria[j];
            let query = MetricQuery {
                name: criterion.metric.clone(),
                window_seconds: criterion.window_seconds,
            };
            let ghost snappre = snap_view(snapshot@);
            match metrics.get_metric(&query) {
                Ok(sample) => {
                    proof {
                        lemma_assoc_get_wf(tv, cv[j as int].metric);
                        assert(wf(*sample));
                    }
                    let mismatch = check_metric_type(
                        criterion.metric.as_str(),
                        sample,
                        metrics_schema,
                    );
                    let pass = if mismatch.is_some() {
                        match direction {
                            GateDirection::Demote => true,
                            GateDirection::Promote => false,
                        }
                    } else {
                        compare_values(&criterion.op, sample, &criterion.value)
                    };
                    let dup = sample.duplicate();
                    snap_set(&mut snapshot, criterion.metric.as_str(), dup);
                    if !pass {
                        all_pass = false;
                    }
                    let res = CriteriaResult {
                        metric: criterion.metric.clone(),
                        op: criterion.op,
                        value: criterion.value.duplicate(),
                        actual: sample.duplicate(),
                        pass,
                        type_mismatch: mismatch,
                    };
                    results.push(res);
                },
                Err(_) => {
                    all_pass = false;
                    let res = CriteriaResult {
                        metric: criterion.metric.clone(),
                        op: criterion.op,
                        value: criterion.value.duplicate(),
                        actual: JsonValue::Null,
                        pass: false,
                        type_mismatch: None,
                    };
                    results.push(res);
                },
            }
            j = j + 1;
        }
        (all_pass, results, snapshot)
    }
}

/// The schema view of an optional schema list.
pub open spec fn spec_schema_of(schema: Option<&Vec<(String, MetricSchema)>>) -> Option<
    Seq<(Seq<char>, AbsMetricSchema)>,
> {
    match schema {
        Some(s) => Some(s.deep_view()),
        None => None,
    }
}

/// A value found in a well-formed table is well-formed.
pub proof fn lemma_assoc_get_wf(t: Seq<(Seq<char>, JsonValue)>, k: Seq<char>)
    requires
        wf_table(t),
    ensures
        assoc_get(t, k) matches Some(v) ==> wf(v),
    decreases t.len(),
{
    if t.len() > 0 && t[0].0 != k {
        assert(forall|i: int| 0 <= i < t.drop_first().len() ==> (#[trigger] t.drop_first()[i])
            == t[i + 1]);
        lemma_assoc_get_wf(t.drop_first(), k);
    }
}

// ---------------------------------------------------------------------------
// Candidate selection and ordering.
// ---------------------------------------------------------------------------

pub open spec fn dir_rank(d: GateDirection) -> int {
    match d {
        GateDirection::Demote => 0,
        GateDirection::Promote => 1,
    }
}

/// The candidate order: demote before promote, then priority descending,
/// then gate id ascending by byte order.
pub open spec fn spec_gate_lt(a: AbsGate, b: AbsGate) -> bool {
    ||| dir_rank(a.direction) < dir_rank(b.direction)
    ||| (dir_rank(a.direction) == dir_rank(b.direction) && a.priority > b.priority)
    ||| (dir_rank(a.direction) == dir_rank(b.direction) && a.priority == b.priority && lex_lt(
        encode_utf8(a.id),
        encode_utf8(b.id),
    ))
}

fn gate_before(a: &Gate, b: &Gate) -> (r: bool)
    ensures
        r == spec_gate_lt(a.deep_view(), b.deep_view()),
{
    let da = match a.direction {
        GateDirection::Demote => 0u8,
        GateDirection::Promote => 1u8,
    };
    let db = match b.direction {
        GateDirection::Demote => 0u8,
        GateDirection::Promote => 1u8,
    };
    if da < db {
        true
    } else if da > db {
        false
    } else if a.priority > b.priority {
        true
    } else if a.priority < b.priority {
        false
    } else {
        crate::bytes::bytes_lt(a.id.as_str().as_bytes(), b.id.as_str().as_bytes())
    }
}

/// Ordered insert, stable for ties: the new element is placed before the
/// first strictly greater one.
pub open spec fn sort_insert(g: AbsGate, s: Seq<AbsGate>) -> Seq<AbsGate>
    decreases s.len(),
{
    if s.len() == 0 {
        seq![g]
    } else if spec_gate_lt(g, s[0]) {
        seq![g] + s
    } else {
        seq![s[0]] + sort_insert(g, s.drop_first())
    }
}

/// The sorted candidate list: gates whose from-phase equals the current
/// phase, inserted in declaration order.
pub open spec fn spec_candidates(
    gates: Seq<AbsGate>,
    phase: Option<Seq<char>>,
    j: int,
    acc: Seq<AbsGate>,
) -> Seq<AbsGate>
    decreases gates.len() - j,
{
    if j < 0 || j >= gates.len() {
        acc
    } else {
        let acc2 = if gates[j].from_phase == phase {
            sort_insert(gates[j], acc)
        } else {
            acc
        };
        spec_candidates(gates, phase, j + 1, acc2)
    }
}

proof fn lemma_sort_insert_at(g: AbsGate, s: Seq<AbsGate>, p: int)
    requires
        0 <= p <= s.len(),
        forall|k: int| 0 <= k < p ==> !spec_gate_lt(g, #[trigger] s[k]),
        p < s.len() ==> spec_gate_lt(g, s[p]),
    ensures
        sort_insert(g, s) == s.insert(p, g),
    decreases p,
{
    if s.len() == 0 {
        assert(sort_insert(g, s) =~= s.insert(0, g));
    } else if p == 0 {
        assert(sort_insert(g, s) =~= s.insert(0, g));
    } else {
        let rest = s.drop_first();
        assert(forall|k: int| 0 <= k < p - 1 ==> !spec_gate_lt(g, #[trigger] rest[k]));
        assert(p - 1 < rest.len() ==> rest[p - 1] == s[p]);
        lemma_sort_insert_at(g, rest, p - 1);
        assert(seq![s[0]] + rest.insert(p - 1, g) =~= s.insert(p, g));
    }
}

fn opt_str_eq(a: &Option<String>, b: &Option<String>) -> (r: bool)
    ensures
        r == (a.deep_view() == b.deep_view()),
{
    match (a, b) {
        (Some(x), Some(y)) => crate::bytes::str_eq(x.as_str(), y.as_str()),
        (None, None) => true,
        _ => false,
    }
}

// ---------------------------------------------------------------------------
// One evaluation tick.
// ---------------------------------------------------------------------------

/// The stable decision tags of a gate evaluation.
#[derive(Debug, Clone, Copy, PartialEq, Eq, Structural)]
pub enum GateDecision {
    Transition,
    PendingHuman,
    Observed,
    ErrorQuorumNotSupported,
    Override,
}

/// Record of one gate evaluation decision.
pub struct GateDecisionRecord {
    pub gate_id: String,
    pub direction: GateDirection,
    pub enforcement: GateEnforcement,
    pub decision: GateDecision,
    pub from_phase: Option<String>,
    pub to_phase: String,
    pub metrics_snapshot: Vec<JsonField>,
    pub criteria_results: Vec<CriteriaResult>,
    pub is_override: bool,
    pub state_rev: u64,
    pub metrics_hash: Vec<u8>,
}

/// The chosen gate and its decision tag.
pub struct AbsOutcome {
    pub gate: AbsGate,
    pub decision: GateDecision,
}

/// Whether the cooldown of a gate suppresses it.
pub open spec fn spec_cooldown_skip(g: AbsGate, st: AbsPhaseState, now: i64) -> bool {
    &&& g.cooldown_seconds > 0
    &&& st.last_transition matches Some(lt) && lt.gate_id == g.id && now - lt.at
        < g.cooldown_seconds
}

/// The metrics hash a gate computes under a table.
pub open spec fn spec_gate_hash(g: AbsGate, table: Seq<(Seq<char>, JsonValue)>) -> Seq<u8> {
    spec_metrics_hash(spec_snapshot(g.criteria, table, 0, Seq::empty()))
}

/// Whether the idempotency rule suppresses a passing gate: the last applied
/// transition already recorded this gate with this metrics hash at this
/// revision.
pub open spec fn spec_idem_skip(
    g: AbsGate,
    st: AbsPhaseState,
    table: Seq<(Seq<char>, JsonValue)>,
) -> bool {
    st.last_transition matches Some(lt) && lt.gate_id == g.id && lt.metrics_hash == Some(
        spec_gate_hash(g, table),
    ) && lt.state_rev == st.state_rev
}

/// The decision tag of a passing gate.
pub open spec fn spec_decision_tag(g: AbsGate) -> GateDecision {
    match g.approval {
        GateApproval::Quorum => GateDecision::ErrorQuorumNotSupported,
        GateApproval::Human => GateDecision::PendingHuman,
        GateApproval::Auto => if g.enforcement == GateEnforcement::Observe {
            GateDecision::Observed
        } else {
            GateDecision::Transition
        },
    }
}

/// Walk the sorted candidates: the first passing, non-suppressed gate
/// decides.
pub open spec fn spec_eval_loop(
    cands: Seq<AbsGate>,
    st: AbsPhaseState,
    table: Seq<(Seq<char>, JsonValue)>,
    now: i64,
    j: int,
) -> Option<AbsOutcome>
    decreases cands.len() - j,
{
    if j < 0 || j >= cands.len() {
        None
    } else {
        let g = cands[j];
        if spec_cooldown_skip(g, st, now) {
            spec_eval_loop(cands, st, table, now, j + 1)
        } else if !spec_all_pass(g.criteria, table, g.direction, g.metrics_schema, 0) {
            spec_eval_loop(cands, st, table, now, j + 1)
        } else if spec_idem_skip(g, st, table) {
            spec_eval_loop(cands, st, table, now, j + 1)
        } else {
            Some(AbsOutcome { gate: g, decision: spec_decision_tag(g) })
        }
    }
}

/// One evaluation tick as a mathematical function of its inputs.
pub open spec fn spec_evaluate(
    gates: Seq<AbsGate>,
    st: AbsPhaseState,
    table: Seq<(Seq<char>, JsonValue)>,
    now: i64,
) -> Option<AbsOutcome> {
    spec_eval_loop(spec_candidates(gates, st.current_phase, 0, Seq::empty()), st, table, now, 0)
}

/// Append `name:value` pairs of the snapshot, comma-separated.
fn join_snapshot(snapshot: &Vec<JsonField>) -> (r: Vec<u8>)
    ensures
        r@ == spec_snap_joined(snap_view(snapshot@), 0),
{
    let ghost sv = snap_view(snapshot@);
    let mut out: Vec<u8> = Vec::new();
    let mut i: usize = 0;
    proof {
        assert(out@ =~= Seq::<u8>::empty());
    }
    while i < snapshot.len()
        invariant
            i <= snapshot@.len(),
            sv == snap_view(snapshot@),
            sv.len() == snapshot@.len(),
            out@ + spec_snap_joined(sv, i as int) == spec_snap_joined(sv, 0),
        decreases snapshot@.len() - i,
    {
        proof {
            assert(sv[i as int] == (
                encode_utf8(snapshot@[i as int].key@),
                spec_ser(snapshot@[i as int].value),
            ));
        }
        if i > 0 {
            out.push(0x2c);
        }
        crate::bytes::push_str(&mut out, snapshot[i].key.as_str());
        out.push(0x3a);
        crate::json::write_json(&snapshot[i].value, &mut out);
        i = i + 1;
    }
    proof {
        assert(spec_snap_joined(sv, sv.len() as int) =~= Seq::<u8>::empty());
        assert(out@ + Seq::<u8>::empty() =~= out@);
    }
    out
}

/// The deterministic metrics hash of a snapshot.
pub fn compute_metrics_hash(snapshot: &Vec<JsonField>) -> (r: Vec<u8>)
    ensures
        r@ == spec_metrics_hash(snap_view(snapshot@)),
{
    let joined = join_snapshot(snapshot);
    crate::hash::tagged_sha256(&joined)
}

impl DefaultGateEvaluator {
    /// One evaluation tick.
    ///
    /// Candidates are the gates whose from-phase equals the current phase,
    /// ordered demote-first, then priority descending, then id ascending.
    /// The first candidate that is not suppressed by cooldown, passes all
    /// its criteria and is not an idempotent repeat decides; its approval
    /// mode and enforcement give the decision tag.  The caller applies the
    /// decision; evaluation itself changes nothing.
    pub fn evaluate(
        &self,
        gates: &Vec<Gate>,
        state: &PhaseState,
        metrics: &MetricsTable,
        now: i64,
    ) -> (r: Option<GateDecisionRecord>)
        requires
            wf_gates(gates.deep_view()),
            wf_table(metrics.deep_view()),
        ensures
            match r {
                None => spec_evaluate(
                    gates.deep_view(),
                    state.deep_view(),
                    metrics.deep_view(),
                    now,
                ) is None,
                Some(rec) => {
                    let o = spec_evaluate(
                        gates.deep_view(),
                        state.deep_view(),
                        metrics.deep_view(),
                        now,
                    );
                    &&& o matches Some(out)
                    &&& rec.gate_id@ == out.gate.id
                    &&& rec.direction == out.gate.direction
                    &&& rec.enforcement == out.gate.enforcement
                    &&& rec.decision == out.decision
                    &&& rec.from_phase.deep_view() == state.deep_view().current_phase
                    &&& rec.to_phase@ == out.gate.to_phase
                    &&& rec.is_override == false
                    &&& rec.state_rev == state.deep_view().state_rev
                    &&& rec.metrics_hash@ == spec_gate_hash(out.gate, metrics.deep_view())
                    &&& snap_view(rec.metrics_snapshot@) == spec_snapshot(
                        out.gate.criteria,
                        metrics.deep_view(),
                        0,
                        Seq::empty(),
                    )
                    &&& crate::json::sorted_keys(rec.metrics_snapshot@)
                    &&& crate::json::wf_obj(rec.metrics_snapshot@, 0)
                    &&& rec.criteria_results@.len() == out.gate.criteria.len()
                    &&& forall|j: int|
                        0 <= j < out.gate.criteria.len() ==> spec_result_ok(
                            rec.criteria_results@[j],
                            #[trigger] out.gate.criteria[j],
                            metrics.deep_view(),
                            out.gate.direction,
                            out.gate.metrics_schema,
                        )
                },
            },
    {
        let ghost gv = gates.deep_view();
        let ghost stv = state.deep_view();
        let ghost tv = metrics.deep_view();

        // Collect candidates matching the current phase, kept sorted.
        let mut cands: Vec<usize> = Vec::new();
        let mut i: usize = 0;
        proof {
            assert(idx_view(gv, cands@) =~= Seq::<AbsGate>::empty());
        }
        while i < gates.len()
            invariant
                i <= gates@.len(),
                gv == gates.deep_view(),
                gv.len() == gates@.len(),
                forall|k: int| 0 <= k < cands@.len() ==> (#[trigger] cands@[k]) < gv.len(),
                spec_candidates(gv, stv.current_phase, i as int, idx_view(gv, cands@))
                    == spec_candidates(gv, stv.current_phase, 0, Seq::empty()),
                stv == state.deep_view(),
            decreases gates@.len() - i,
        {
            proof {
                assert(gv[i as int] == gates@[i as int].deep_view());
            }
            if opt_str_eq(&gates[i].from_phase, &state.current_phase) {
                let ghost cpre = idx_view(gv, cands@);
                // find the sorted position
                let mut p: usize = 0;
                while p < cands.len() && !gate_before(&gates[i], &gates[cands[p]])
                    invariant
                        p <= cands@.len(),
                        gv == gates.deep_view(),
                        gv.len() == gates@.len(),
                        i < gates@.len(),
                        forall|k: int| 0 <= k < cands@.len() ==> (#[trigger] cands@[k]) < gv.len(),
                        cpre == idx_view(gv, cands@),
                        forall|k: int|
                            0 <= k < p ==> !spec_gate_lt(gv[i as int], #[trigger] cpre[k]),
                    decreases cands@.len() - p,
                {
                    proof {
                        assert(cpre[p as int] == gv[cands@[p as int] as int]);
                    }
                    p = p + 1;
                }
                proof {
                    if p < cands@.len() {
                        assert(cpre[p as int] == gv[cands@[p as int] as int]);
                    }
                    lemma_sort_insert_at(gv[i as int], cpre, p as int);
                }
                cands.insert(p, i);
                proof {
                    assert(idx_view(gv, cands@) =~= cpre.insert(p as int, gv[i as int]));
                }
            }
            i = i + 1;
        }
        let ghost cv = spec_candidates(gv, stv.current_phase, 0, Seq::empty());
        proof {
            assert(spec_candidates(gv, stv.current_phase, gv.len() as int, idx_view(gv, cands@))
                == idx_view(gv, cands@));
        }

        // Walk the candidates in order.
        let mut k: usize = 0;
        while k < cands.len()
            invariant
                k <= cands@.len(),
                gv == gates.deep_view(),
                gv.len() == gates@.len(),
                tv == metrics.deep_view(),
                stv == state.deep_view(),
                wf_gates(gv),
                wf_table(tv),
                forall|m: int| 0 <= m < cands@.len() ==> (#[trigger] cands@[m]) < gv.len(),
                cv == idx_view(gv, cands@),
                cv == spec_candidates(gv, stv.current_phase, 0, Seq::empty()),
                cv.len() == cands@.len(),
                spec_eval_loop(cv, stv, tv, now, k as int) == spec_eval_loop(cv, stv, tv, now, 0),
            decreases cands@.len() - k,
        {
            proof {
                assert(cv[k as int] == gv[cands@[k as int] as int]);
                assert(gv[cands@[k as int] as int] == gates@[cands@[k as int] as int].deep_view());
            }
            let gate = &gates[cands[k]];
            let ghost g = cv[k as int];

            // Cooldown
            let mut skip = false;
            if gate.cooldown_seconds > 0 {
                match &state.last_transition {
                    Some(last) => {
                        if crate::bytes::str_eq(last.gate_id.as_str(), gate.id.as_str()) {
                            let elapsed: i128 = (now as i128) - (last.at as i128);
                            if elapsed < (gate.cooldown_seconds as i128) {
                                skip = true;
                            }
                        }
                    },
                    None => {},
                }
            }
            proof {
                assert(skip == spec_cooldown_skip(g, stv, now));
            }
            if !skip {
                let (all_pass, results, snapshot) = self.evaluate_criteria(
                    &gate.criteria,
                    metrics,
                    gate.direction,
                    match &gate.metrics_schema {
                        Some(s) => Some(s),
                        None => None,
                    },
                );
                if all_pass {
                    let metrics_hash = compute_metrics_hash(&snapshot);
                    proof {
                        assert(metrics_hash@ == spec_gate_hash(g, tv));
                    }
                    // Idempotency
                    let mut idem = false;
                    match &state.last_transition {
                        Some(last) => {
                            if crate::bytes::str_eq(last.gate_id.as_str(), gate.id.as_str()) {
                                match &last.metrics_hash {
                                    Some(h) => {
                                        if crate::bytes::bytes_eq(
                                            h.as_slice(),
                                            metrics_hash.as_slice(),
                                        ) && last.state_rev == state.state_rev {
                                            idem = true;
                                        }
                                    },
                                    None => {},
                                }
                            }
                        },
                        None => {},
                    }
                    proof {
                        match &state.last_transition {
                            Some(last) => {
                                match &last.metrics_hash {
                                    Some(h) => {
                                        assert(h.deep_view() =~= h@);
                                    },
                                    None => {},
                                }
                            },
                            None => {},
                        }
                        assert(idem == spec_idem_skip(g, stv, tv));
                    }
                    if !idem {
                        let decision = match gate.approval {
                            GateApproval::Quorum => GateDecision::ErrorQuorumNotSupported,
                            GateApproval::Human => GateDecision::PendingHuman,
                            GateApproval::Auto => match gate.enforcement {
                                GateEnforcement::Observe => GateDecision::Observed,
                                GateEnforcement::Enforce => GateDecision::Transition,
                            },
                        };
                        proof {
                            assert(decision == spec_decision_tag(g));
                            assert(!spec_cooldown_skip(g, stv, now));
                            assert(spec_all_pass(g.criteria, tv, g.direction, g.metrics_schema, 0));
                            assert(!spec_idem_skip(g, stv, tv));
                            assert(spec_eval_loop(cv, stv, tv, now, k as int) == Some(
                                AbsOutcome { gate: g, decision: spec_decision_tag(g) },
                            ));
                            assert(spec_evaluate(gv, stv, tv, now) == Some(
                                AbsOutcome { gate: g, decision: spec_decision_tag(g) },
                            ));
                        }
                        let rec = GateDecisionRecord {
                            gate_id: gate.id.clone(),
                            direction: gate.direction,
                            enforcement: gate.enforcement,
                            decision,
                            from_phase: match &state.current_phase {
                                Some(p) => Some(p.clone()),
                                None => None,
                            },
                            to_phase: gate.to_phase.clone(),
                            metrics_snapshot: snapshot,
                            criteria_results: results,
                            is_override: false,
                            state_rev: state.state_rev,
                            metrics_hash,
                        };
                        return Some(rec);
                    }
                }
            }
            k = k + 1;
        }
        None
    }
}

/// The gates named by a list of indices.
pub open spec fn idx_view(gv: Seq<AbsGate>, idxs: Seq<usize>) -> Seq<AbsGate> {
    Seq::new(idxs.len(), |k: int| gv[idxs[k] as int])
}

// ---------------------------------------------------------------------------
// Overrides and diagnostics.
// ---------------------------------------------------------------------------

/// A requested emergency bypass of a failed gate.
pub struct OverrideRequest {
    pub gate_id: String,
    pub direction: GateDirection,
    pub from_phase: Option<String>,
    pub to_phase: String,
    pub reason: String,
    pub approver: String,
    pub state_rev: u64,
    pub metrics_snapshot: Vec<JsonField>,
}

/// Process a gate override: an enforced, override-flagged decision record.
pub fn process_override(req: &OverrideRequest) -> (r: GateDecisionRecord)
    requires
        crate::json::sorted_keys(req.metrics_snapshot@),
        crate::json::wf_obj(req.metrics_snapshot@, 0),
    ensures
        r.gate_id@ == req.gate_id@,
        r.direction == req.direction,
        r.enforcement == GateEnforcement::Enforce,
        r.decision == GateDecision::Override,
        r.from_phase.deep_view() == req.from_phase.deep_view(),
        r.to_phase@ == req.to_phase@,
        r.is_override == true,
        r.state_rev == req.state_rev,
        r.metrics_hash@.len() == 0,
        snap_view(r.metrics_snapshot@) == snap_view(req.metrics_snapshot@),
        r.criteria_results@.len() == 0,
{
    let mut snap: Vec<JsonField> = Vec::new();
    let mut i: usize = 0;
    while i < req.metrics_snapshot.len()
        invariant
            i <= req.metrics_snapshot@.len(),
            snap@.len() == i,
            forall|j: int|
                0 <= j < i ==> (#[trigger] snap@[j]).key@ == req.metrics_snapshot@[j].key@
                    && spec_ser(snap@[j].value) == spec_ser(req.metrics_snapshot@[j].value)
                    && wf(snap@[j].value) == wf(req.metrics_snapshot@[j].value),
        decreases req.metrics_snapshot@.len() - i,
    {
        let f = JsonField {
            key: req.metrics_snapshot[i].key.clone(),
            value: req.metrics_snapshot[i].value.duplicate(),
        };
        proof {
            crate::json::lemma_json_eq_ser(f.value, req.metrics_snapshot@[i as int].value);
        }
        snap.push(f);
        i = i + 1;
    }
    proof {
        assert(snap_view(snap@) =~= snap_view(req.metrics_snapshot@));
        assert forall|a: int|
            0 <= a < snap@.len() - 1 implies crate::json::key_lt(
            (#[trigger] snap@[a]).key@,
            snap@[a + 1].key@,
        ) by {
            assert(crate::json::key_lt(
                req.metrics_snapshot@[a].key@,
                req.metrics_snapshot@[a + 1].key@,
            ));
        }
        assert forall|a: int| 0 <= a < snap@.len() implies wf((#[trigger] snap@[a]).value) by {
            crate::json::lemma_wf_obj_index(req.metrics_snapshot@, 0, a);
        }
        crate::json::lemma_wf_obj_seq(snap@, 0);
    }
    GateDecisionRecord {
        gate_id: req.gate_id.clone(),
        direction: req.direction,
        enforcement: GateEnforcement::Enforce,
        decision: GateDecision::Override,
        from_phase: match &req.from_phase {
            Some(p) => Some(p.clone()),
            None => None,
        },
        to_phase: req.to_phase.clone(),
        metrics_snapshot: snap,
        criteria_results: Vec::new(),
        is_override: true,
        state_rev: req.state_rev,
        metrics_hash: Vec::new(),
    }
}

/// Evaluate the criteria of one requested gate without a schema, for a
/// failure diagnostic.
pub fn diagnose_gate(gate: &Gate, metrics: &MetricsTable) -> (r: Vec<CriteriaResult>)
    requires
        wf_table(metrics.deep_view()),
        forall|j: int|
            0 <= j < gate.deep_view().criteria.len() ==> wf(
                (#[trigger] gate.deep_view().criteria[j]).value,
            ),
    ensures
        r@.len() == gate.deep_view().criteria.len(),
        forall|j: int|
            0 <= j < gate.deep_view().criteria.len() ==> {
                let c = #[trigger] gate.deep_view().criteria[j];
                let res = r@[j];
                &&& res.metric@ == c.metric
                &&& res.pass == spec_crit_pass(c, metrics.deep_view(), gate.deep_view().direction, None)
            },
{
    let ev = DefaultGateEvaluator;
    let (_, results, _) = ev.evaluate_criteria(&gate.criteria, metrics, gate.direction, None);
    results
}

// ---------------------------------------------------------------------------
// Idempotency.
// ---------------------------------------------------------------------------

/// When the last applied transition already records, at the current
/// revision, every candidate that passes its criteria (with its metrics
/// hash), a repeat evaluation returns nothing.
pub proof fn lemma_eval_loop_idempotent(
    cands: Seq<AbsGate>,
    st: AbsPhaseState,
    table: Seq<(Seq<char>, JsonValue)>,
    now: i64,
    j: int,
)
    requires
        0 <= j,
        forall|k: int|
            j <= k < cands.len() && spec_all_pass(
                (#[trigger] cands[k]).criteria,
                table,
                cands[k].direction,
                cands[k].metrics_schema,
                0,
            ) && !spec_cooldown_skip(cands[k], st, now) ==> spec_idem_skip(cands[k], st, table),
    ensures
        spec_eval_loop(cands, st, table, now, j) is None,
    decreases cands.len() - j,
{
    if j < cands.len() {
        lemma_eval_loop_idempotent(cands, st, table, now, j + 1);
    }
}

/// The idempotency law at the evaluation entry: with unchanged inputs, a
/// state whose last transition already records every passing candidate
/// yields no decision.
pub proof fn lemma_evaluate_idempotent(
    gates: Seq<AbsGate>,
    st: AbsPhaseState,
    table: Seq<(Seq<char>, JsonValue)>,
    now: i64,
)
    requires
        forall|k: int|
            0 <= k < eval_candidates(gates, st.current_phase).len() && spec_all_pass(
                (#[trigger] eval_candidates(gates, st.current_phase)[k]).criteria,
                table,
                eval_candidates(gates, st.current_phase)[k].direction,
                eval_candidates(gates, st.current_phase)[k].metrics_schema,
                0,
            ) && !spec_cooldown_skip(eval_candidates(gates, st.current_phase)[k], st, now)
                ==> spec_idem_skip(eval_candidates(gates, st.current_phase)[k], st, table),
    ensures
        spec_evaluate(gates, st, table, now) is None,
{
    lemma_eval_loop_idempotent(eval_candidates(gates, st.current_phase), st, table, now, 0);
}

/// The sorted candidate list of an evaluation.
pub open spec fn eval_candidates(gates: Seq<AbsGate>, phase: Option<Seq<char>>) -> Seq<AbsGate> {
    spec_candidates(gates, phase, 0, Seq::empty())
}

} // verus!
