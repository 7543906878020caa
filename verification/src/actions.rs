//! The assignment action stream: pairs declared keys with supplied values
//! positionally, type-checks each pair, and yields one outcome per pair —
//! an [`Action`] to apply or an [`AssignmentError`] to report. No malformed
//! pairing aborts the statement; every outcome is yielded.

use vstd::prelude::*;
use crate::is_array;
use crate::is_array_spec;
use crate::keys::{
    is_array_kind, is_scalar_kind, parse_key, spec_key_rel, spec_kind_text, Key, Primitive,
    TypeError,
};
use crate::operators::Operator;
use crate::splitter::{spec_split_args, split_args};
use crate::strutil::str_eq;

verus! {

/// The closed set of per-pairing failures. Structural errors carry the text
/// they refer to as owned copies.
#[derive(Debug, PartialEq, Eq)]
pub enum AssignmentError {
    /// The value's bracket shape does not fit the key's declared shape:
    /// expected shape, then actual shape.
    InvalidValue(Primitive, Primitive),
    /// The key lexer's own error, passed through unchanged.
    TypeError(TypeError),
    /// A value was supplied past the last key; carries the previous
    /// accepted key and value.
    ExtraValues(String, String),
    /// A key was supplied past the last value; carries the previous
    /// accepted key and value.
    ExtraKeys(String, String),
    /// The key was already assigned in this statement.
    RepeatedKey(String),
    /// A value was supplied but no key was ever accepted.
    NoKey(String),
}

/// An emitted instruction: key, combination mode, and raw value text. Purely
/// descriptive; applying it is the consumer's concern.
#[derive(Debug, PartialEq, Eq)]
pub struct Action(pub Key, pub Operator, pub String);

/// What `Action::parse` yields: scalar-like shapes accept any value text;
/// array-like shapes require a bracket-delimited value and otherwise report
/// a string where an array shape was expected; every other shape requires a
/// non-bracketed value and otherwise reports a string array where a scalar
/// was expected. The check is purely syntactic.
pub open spec fn spec_action_rel(
    k: Key,
    op: Operator,
    v: Seq<char>,
    out: Result<Action, AssignmentError>,
) -> bool {
    if is_scalar_kind(k.kind) {
        out matches Ok(a) && a.0 == k && a.1 == op && a.2@ == v
    } else if is_array_kind(k.kind) {
        if is_array_spec(v) {
            out matches Ok(a) && a.0 == k && a.1 == op && a.2@ == v
        } else {
            out == Result::<Action, AssignmentError>::Err(
                AssignmentError::InvalidValue(k.kind, Primitive::Str),
            )
        }
    } else {
        if !is_array_spec(v) {
            out matches Ok(a) && a.0 == k && a.1 == op && a.2@ == v
        } else {
            out == Result::<Action, AssignmentError>::Err(
                AssignmentError::InvalidValue(k.kind, Primitive::StrArray),
            )
        }
    }
}

impl Action {
    /// Type-checks one key/value pairing, as [`spec_action_rel`] describes.
    /// `is_arr` is the value's bracket shape, precomputed by the caller.
    pub fn parse(var: Key, operator: Operator, value: String, is_arr: bool) -> (r: Result<
        Action,
        AssignmentError,
    >)
        requires
            is_arr == is_array_spec(value@),
        ensures
            spec_action_rel(var, operator, value@, r),
    {
        match &var.kind {
            Primitive::Indexed(_) | Primitive::Str => Ok(Action(var, operator, value)),
            Primitive::StrArray
            | Primitive::BooleanArray
            | Primitive::FloatArray
            | Primitive::IntegerArray
            | Primitive::HashMap
            | Primitive::BTreeMap => {
                if is_arr {
                    Ok(Action(var, operator, value))
                } else {
                    Err(AssignmentError::InvalidValue(var.kind, Primitive::Str))
                }
            },
            _ => {
                if !is_arr {
                    Ok(Action(var, operator, value))
                } else {
                    Err(AssignmentError::InvalidValue(var.kind, Primitive::StrArray))
                }
            },
        }
    }
}

/// The number of outcomes a statement yields: one per key/value step.
pub open spec fn stream_len(nk: int, nv: int) -> int {
    if nk > nv {
        nk
    } else {
        nv
    }
}

/// The name of the key parsed at position `j`.
pub open spec fn key_name_at(keys: Seq<Result<Key, TypeError>>, j: int) -> Seq<char> {
    keys[j]->Ok_0.name@
}

/// Whether the key at position `i` repeats the name of an earlier
/// well-formed key that was paired with a value.
pub open spec fn seen_before(keys: Seq<Result<Key, TypeError>>, nv: int, i: int) -> bool {
    exists|j: int|
        0 <= j < i && j < nv && j < keys.len() && (#[trigger] keys[j]) is Ok && key_name_at(
            keys,
            j,
        ) == key_name_at(keys, i)
}

/// Whether step `j` accepts its pairing: both key and value present, the key
/// well-formed and not a repeat. An accepted step records its key and value
/// as the "previous" pair for later diagnostics, whether or not the type
/// check then passes.
pub open spec fn accepted_at(keys: Seq<Result<Key, TypeError>>, nv: int, j: int) -> bool {
    0 <= j < keys.len() && j < nv && keys[j] is Ok && !seen_before(keys, nv, j)
}

/// The names recorded by the accepted steps before `upto`, in order.
pub open spec fn seen_names(keys: Seq<Result<Key, TypeError>>, nv: int, upto: int) -> Seq<
    Seq<char>,
>
    decreases upto,
{
    if upto <= 0 {
        Seq::empty()
    } else if accepted_at(keys, nv, upto - 1) {
        seen_names(keys, nv, upto - 1).push(key_name_at(keys, upto - 1))
    } else {
        seen_names(keys, nv, upto - 1)
    }
}

/// The key name and value of the last accepted step before `upto`.
pub open spec fn spec_prev_pair(
    keys: Seq<Result<Key, TypeError>>,
    values: Seq<Seq<char>>,
    upto: int,
) -> Option<(Seq<char>, Seq<char>)>
    decreases upto,
{
    if upto <= 0 {
        None
    } else if accepted_at(keys, values.len() as int, upto - 1) {
        Some((key_name_at(keys, upto - 1), values[upto - 1]))
    } else {
        spec_prev_pair(keys, values, upto - 1)
    }
}

/// The outcome of step `i` of a statement whose parsed keys are `keys` and
/// whose value tokens are `values`. With both a key and a value present, a
/// malformed key passes its type error through, a repeated name is flagged,
/// and an accepted pairing is type-checked. A surplus value is flagged
/// against the previous accepted pair, or as having no key when no step was
/// ever accepted. A surplus key is flagged against the previous accepted
/// pair, which the stream presupposes to exist.
pub open spec fn step_rel(
    keys: Seq<Result<Key, TypeError>>,
    op: Operator,
    values: Seq<Seq<char>>,
    i: int,
    out: Result<Action, AssignmentError>,
) -> bool {
    let nk = keys.len() as int;
    let nv = values.len() as int;
    if 0 <= i < nk && i < nv {
        match keys[i] {
            Result::Err(te) => out == Result::<Action, AssignmentError>::Err(
                AssignmentError::TypeError(te),
            ),
            Result::Ok(k) => {
                if seen_before(keys, nv, i) {
                    out matches Err(AssignmentError::RepeatedKey(n)) && n@ == k.name@
                } else {
                    spec_action_rel(k, op, values[i], out)
                }
            },
        }
    } else if 0 <= i < nv {
        match spec_prev_pair(keys, values, i) {
            Some(p) => out matches Err(AssignmentError::ExtraValues(pk, pv)) && pk@ == p.0 && pv@
                == p.1,
            None => out matches Err(AssignmentError::NoKey(v)) && v@ == values[i],
        }
    } else if 0 <= i < nk {
        match spec_prev_pair(keys, values, i) {
            Some(p) => out matches Err(AssignmentError::ExtraKeys(pk, pv)) && pk@ == p.0 && pv@
                == p.1,
            None => false,
        }
    } else {
        false
    }
}

/// Whether step `i` can be taken: the one case the stream presupposes never
/// to arise is a surplus key with no previously accepted pairing.
pub open spec fn step_possible(
    keys: Seq<Result<Key, TypeError>>,
    values: Seq<Seq<char>>,
    i: int,
) -> bool {
    !(values.len() <= i < keys.len() && spec_prev_pair(keys, values, i) is None)
}

/// Whether the whole stream can run: either no key is in surplus, or some
/// step is accepted before the values run out.
pub open spec fn stream_ok(keys: Seq<Result<Key, TypeError>>, values: Seq<Seq<char>>) -> bool {
    keys.len() <= values.len() || spec_prev_pair(keys, values, values.len() as int) is Some
}

fn clone_key_result(x: &Result<Key, TypeError>) -> (r: Result<Key, TypeError>)
    ensures
        r == *x,
{
    match x {
        Ok(k) => Ok(k.clone()),
        Err(e) => Err(e.clone()),
    }
}

fn contains_name(v: &Vec<String>, name: &str) -> (r: bool)
    ensures
        r == v.deep_view().contains(name@),
{
    let mut i: usize = 0;
    while i < v.len()
        invariant
            0 <= i <= v@.len(),
            v.deep_view().len() == v@.len(),
            forall|j: int| 0 <= j < i ==> v.deep_view()[j] != name@,
        decreases v@.len() - i,
    {
        if str_eq(v[i].as_str(), name) {
            assert(v.deep_view()[i as int] == name@);
            return true;
        }
        assert(v.deep_view()[i as int] == v@[i as int]@);
        i += 1;
    }
    assert(!v.deep_view().contains(name@));
    false
}

proof fn lemma_seen_contains(keys: Seq<Result<Key, TypeError>>, nv: int, i: int, x: Seq<char>)
    ensures
        seen_names(keys, nv, i).contains(x) <==> exists|j: int|
            0 <= j < i && j < nv && j < keys.len() && (#[trigger] keys[j]) is Ok && key_name_at(
                keys,
                j,
            ) == x,
    decreases i,
{
    if i > 0 {
        lemma_seen_contains(keys, nv, i - 1, x);
        let prev = seen_names(keys, nv, i - 1);
        if accepted_at(keys, nv, i - 1) {
            let cur = prev.push(key_name_at(keys, i - 1));
            assert(seen_names(keys, nv, i) == cur);
            assert forall|y: Seq<char>| cur.contains(y) implies prev.contains(y) || y
                == key_name_at(keys, i - 1) by {
                let ix = choose|ix: int| 0 <= ix < cur.len() && cur[ix] == y;
                if ix < prev.len() {
                    assert(prev[ix] == y);
                }
            }
            if prev.contains(x) || x == key_name_at(keys, i - 1) {
                if x == key_name_at(keys, i - 1) {
                    assert(cur[cur.len() - 1] == x);
                } else {
                    let ix = choose|ix: int| 0 <= ix < prev.len() && prev[ix] == x;
                    assert(cur[ix] == x);
                }
            }
        } else {
            assert(seen_names(keys, nv, i) == prev);
            if exists|j: int|
                0 <= j < i && j < nv && j < keys.len() && (#[trigger] keys[j]) is Ok
                    && key_name_at(keys, j) == x {
                let j = choose|j: int|
                    0 <= j < i && j < nv && j < keys.len() && (#[trigger] keys[j]) is Ok
                        && key_name_at(keys, j) == x;
                if j == i - 1 {
                    assert(seen_before(keys, nv, i - 1));
                    let j2 = choose|j2: int|
                        0 <= j2 < i - 1 && j2 < nv && j2 < keys.len() && (#[trigger] keys[j2])
                            is Ok && key_name_at(keys, j2) == key_name_at(keys, i - 1);
                    assert(key_name_at(keys, j2) == x);
                }
            }
        }
    }
}

proof fn lemma_prev_pair_stable(keys: Seq<Result<Key, TypeError>>, values: Seq<Seq<char>>, upto: int)
    requires
        upto >= values.len(),
        upto >= 0,
    ensures
        spec_prev_pair(keys, values, upto) == spec_prev_pair(keys, values, values.len() as int),
    decreases upto,
{
    if upto > values.len() {
        assert(!accepted_at(keys, values.len() as int, upto - 1));
        lemma_prev_pair_stable(keys, values, upto - 1);
    }
}

proof fn lemma_prev_pair_iff_some_ok(
    keys: Seq<Result<Key, TypeError>>,
    values: Seq<Seq<char>>,
    upto: int,
)
    ensures
        spec_prev_pair(keys, values, upto) is Some <==> exists|j: int|
            0 <= j < upto && j < values.len() && j < keys.len() && (#[trigger] keys[j]) is Ok,
    decreases upto,
{
    if upto > 0 {
        lemma_prev_pair_iff_some_ok(keys, values, upto - 1);
        if !accepted_at(keys, values.len() as int, upto - 1) {
            if exists|j: int|
                0 <= j < upto && j < values.len() && j < keys.len() && (#[trigger] keys[j])
                    is Ok {
                let j = choose|j: int|
                    0 <= j < upto && j < values.len() && j < keys.len() && (#[trigger] keys[j])
                        is Ok;
                if j == upto - 1 {
                    assert(seen_before(keys, values.len() as int, j));
                }
            }
        }
    }
}

/// The stream itself. The key list and value list are tokenized up front;
/// pulling outcomes is then driven by `index`. `prevkeys` records the names
/// accepted so far and `prevval` the value of the last accepted pairing.
#[derive(Debug)]
pub struct AssignmentActions {
    pub keys: Vec<Result<Key, TypeError>>,
    pub operator: Operator,
    pub values: Vec<String>,
    pub index: usize,
    pub prevkeys: Vec<String>,
    pub prevval: String,
}

impl AssignmentActions {
    /// The stream's well-formedness: the position is within the stream and
    /// the recorded names and previous pair agree with the prefix read so
    /// far.
    pub open spec fn wf(self) -> bool {
        let ks = self.keys@;
        let vs = self.values.deep_view();
        let i = self.index as int;
        &&& i <= stream_len(ks.len() as int, vs.len() as int)
        &&& self.prevkeys.deep_view() == seen_names(ks, vs.len() as int, i)
        &&& match spec_prev_pair(ks, vs, i) {
            Some(p) => self.prevkeys@.len() > 0 && self.prevkeys@[self.prevkeys@.len() - 1]@
                == p.0 && self.prevval@ == p.1,
            None => self.prevkeys@.len() == 0,
        }
    }

    /// Builds the stream from raw key-list text, an operator, and raw
    /// value-list text. Both texts are tokenized by the argument splitter;
    /// each key token is read by the key lexer.
    pub fn new(keys: &str, operator: Operator, values: &str) -> (r: AssignmentActions)
        ensures
            r.wf(),
            r.index == 0,
            r.operator == operator,
            r.values.deep_view() == spec_split_args(values@),
            r.keys@.len() == spec_split_args(keys@).len(),
            forall|j: int|
                0 <= j < r.keys@.len() ==> spec_key_rel(
                    spec_split_args(keys@)[j],
                    #[trigger] r.keys@[j],
                ),
    {
        let key_tokens = split_args(keys);
        let mut parsed: Vec<Result<Key, TypeError>> = Vec::new();
        let mut i: usize = 0;
        while i < key_tokens.len()
            invariant
                key_tokens.deep_view() == spec_split_args(keys@),
                key_tokens.deep_view().len() == key_tokens@.len(),
                0 <= i <= key_tokens@.len(),
                parsed@.len() == i,
                forall|j: int|
                    0 <= j < i ==> spec_key_rel(key_tokens.deep_view()[j], #[trigger] parsed@[j]),
            decreases key_tokens@.len() - i,
        {
            assert(key_tokens.deep_view()[i as int] == key_tokens@[i as int]@);
            let k = parse_key(key_tokens[i].as_str());
            parsed.push(k);
            i += 1;
        }
        let r = AssignmentActions {
            keys: parsed,
            operator,
            values: split_args(values),
            index: 0,
            prevkeys: Vec::new(),
            prevval: String::new(),
        };
        proof {
            assert(r.prevkeys.deep_view() =~= seen_names(
                r.keys@,
                r.values.deep_view().len() as int,
                0,
            ));
        }
        r
    }

    /// Decides at run time whether the whole stream can run: true unless the
    /// statement holds more keys than values while no key among the first
    /// values is well-formed — the one shape the stream presupposes never to
    /// arise.
    pub fn stream_is_ok(&self) -> (r: bool)
        ensures
            r == stream_ok(self.keys@, self.values.deep_view()),
    {
        let nk = self.keys.len();
        let nv = self.values.len();
        proof {
            assert(self.values.deep_view().len() == self.values@.len());
        }
        if nk <= nv {
            return true;
        }
        let mut j: usize = 0;
        while j < nv
            invariant
                nv < nk,
                nk == self.keys@.len(),
                nv as int == self.values.deep_view().len(),
                0 <= j <= nv,
                forall|k: int| 0 <= k < j ==> !((#[trigger] self.keys@[k]) is Ok),
            decreases nv - j,
        {
            if self.keys[j].is_ok() {
                proof {
                    lemma_prev_pair_iff_some_ok(self.keys@, self.values.deep_view(), nv as int);
                }
                return true;
            }
            j += 1;
        }
        proof {
            lemma_prev_pair_iff_some_ok(self.keys@, self.values.deep_view(), nv as int);
        }
        false
    }

    /// Yields the next outcome, or `None` when both lists are exhausted.
    pub fn next(&mut self) -> (r: Option<Result<Action, AssignmentError>>)
        requires
            old(self).wf(),
            step_possible(old(self).keys@, old(self).values.deep_view(), old(self).index as int),
        ensures
            final(self).wf(),
            final(self).keys == old(self).keys,
            final(self).values == old(self).values,
            final(self).operator == old(self).operator,
            ({
                let ks = old(self).keys@;
                let vs = old(self).values.deep_view();
                let i = old(self).index as int;
                if i < stream_len(ks.len() as int, vs.len() as int) {
                    &&& final(self).index == i + 1
                    &&& r matches Some(out) && step_rel(ks, old(self).operator, vs, i, out)
                } else {
                    &&& final(self).index == i
                    &&& r is None
                }
            }),
    {
        let ghost ks = self.keys@;
        let ghost vs = self.values.deep_view();
        let nk = self.keys.len();
        let nv = self.values.len();
        let i = self.index;
        proof {
            assert(vs.len() == self.values@.len());
        }
        if i < nk && i < nv {
            self.index = i + 1;
            let kr = clone_key_result(&self.keys[i]);
            match kr {
                Err(te) => {
                    proof {
                        assert(!accepted_at(ks, nv as int, i as int));
                    }
                    Some(Err(AssignmentError::TypeError(te)))
                },
                Ok(k) => {
                    let dup = contains_name(&self.prevkeys, k.name.as_str());
                    proof {
                        lemma_seen_contains(ks, nv as int, i as int, k.name@);
                        assert(dup == seen_before(ks, nv as int, i as int));
                    }
                    if dup {
                        proof {
                            assert(!accepted_at(ks, nv as int, i as int));
                        }
                        Some(Err(AssignmentError::RepeatedKey(k.name)))
                    } else {
                        proof {
                            assert(accepted_at(ks, nv as int, i as int));
                        }
                        let ghost pk0 = self.prevkeys.deep_view();
                        let v = self.values[i].clone();
                        assert(v@ == vs[i as int]);
                        self.prevkeys.push(k.name.clone());
                        self.prevval = self.values[i].clone();
                        proof {
                            assert(self.prevkeys.deep_view() =~= pk0.push(k.name@));
                        }
                        let arr = is_array(v.as_str());
                        Some(Action::parse(k, self.operator, v, arr))
                    }
                },
            }
        } else if i < nv {
            self.index = i + 1;
            proof {
                assert(!accepted_at(ks, nv as int, i as int));
            }
            if self.prevkeys.len() > 0 {
                let pk = self.prevkeys[self.prevkeys.len() - 1].clone();
                let pv = self.prevval.clone();
                Some(Err(AssignmentError::ExtraValues(pk, pv)))
            } else {
                let v = self.values[i].clone();
                assert(v@ == vs[i as int]);
                Some(Err(AssignmentError::NoKey(v)))
            }
        } else if i < nk {
            self.index = i + 1;
            proof {
                assert(!accepted_at(ks, nv as int, i as int));
            }
            if self.prevkeys.len() > 0 {
                let pk = self.prevkeys[self.prevkeys.len() - 1].clone();
                let pv = self.prevval.clone();
                Some(Err(AssignmentError::ExtraKeys(pk, pv)))
            } else {
                proof {
                    assert(false);
                }
                vstd::pervasive::unreached()
            }
        } else {
            None
        }
    }

    /// Runs the stream to its end and collects every outcome. The length of
    /// the result is exactly the larger of the number of keys parsed and the
    /// number of values parsed: no outcome is dropped or duplicated.
    pub fn collect_actions(self) -> (r: Vec<Result<Action, AssignmentError>>)
        requires
            self.wf(),
            self.index == 0,
            stream_ok(self.keys@, self.values.deep_view()),
        ensures
            r@.len() == stream_len(self.keys@.len() as int, self.values.deep_view().len() as int),
            forall|i: int|
                0 <= i < r@.len() ==> step_rel(
                    self.keys@,
                    self.operator,
                    self.values.deep_view(),
                    i,
                    #[trigger] r@[i],
                ),
    {
        let ghost ks = self.keys@;
        let ghost vs = self.values.deep_view();
        let ghost op = self.operator;
        let mut st = self;
        let nk = st.keys.len();
        let nv = st.values.len();
        let max = if nk > nv {
            nk
        } else {
            nv
        };
        let mut out: Vec<Result<Action, AssignmentError>> = Vec::new();
        while st.index < max
            invariant
                st.wf(),
                st.keys@ == ks,
                st.values.deep_view() == vs,
                st.operator == op,
                stream_ok(ks, vs),
                max == stream_len(ks.len() as int, vs.len() as int),
                nv as int == vs.len(),
                out@.len() == st.index,
                forall|i: int| 0 <= i < out@.len() ==> step_rel(ks, op, vs, i, #[trigger] out@[i]),
            decreases max - st.index,
        {
            proof {
                if nv <= st.index < ks.len() {
                    lemma_prev_pair_stable(ks, vs, st.index as int);
                }
            }
            let x = st.next();
            match x {
                Some(o) => out.push(o),
                None => {
                    proof {
                        assert(false);
                    }
                },
            }
        }
        out
    }
}

/// A key appearing twice: the later occurrence is flagged as repeated and
/// excluded from application.
pub proof fn lemma_repeated_key_flagged(
    keys: Seq<Result<Key, TypeError>>,
    op: Operator,
    values: Seq<Seq<char>>,
    i: int,
    j: int,
    out: Result<Action, AssignmentError>,
)
    requires
        0 <= j < i < keys.len(),
        i < values.len(),
        j < values.len(),
        keys[j] is Ok,
        keys[i] is Ok,
        key_name_at(keys, j) == key_name_at(keys, i),
        step_rel(keys, op, values, i, out),
    ensures
        out matches Err(AssignmentError::RepeatedKey(n)) && n@ == key_name_at(keys, i),
{
    assert(seen_before(keys, values.len() as int, i));
}

/// A key whose name no earlier well-formed key shares is validated normally:
/// its outcome is exactly the type check of its own pairing.
pub proof fn lemma_first_occurrence_validated(
    keys: Seq<Result<Key, TypeError>>,
    op: Operator,
    values: Seq<Seq<char>>,
    i: int,
    out: Result<Action, AssignmentError>,
)
    requires
        0 <= i < keys.len(),
        i < values.len(),
        keys[i] is Ok,
        forall|j: int|
            0 <= j < i ==> !((#[trigger] keys[j]) is Ok && key_name_at(keys, j) == key_name_at(
                keys,
                i,
            )),
        step_rel(keys, op, values, i, out),
    ensures
        spec_action_rel(keys[i]->Ok_0, op, values[i], out),
{
    assert(!seen_before(keys, values.len() as int, i));
}

/// A declared array-typed key paired with a non-bracketed value yields
/// exactly `InvalidValue` of the declared shape against a plain string.
pub proof fn lemma_array_key_rejects_scalar_value(
    keys: Seq<Result<Key, TypeError>>,
    op: Operator,
    values: Seq<Seq<char>>,
    i: int,
    out: Result<Action, AssignmentError>,
)
    requires
        0 <= i < keys.len(),
        i < values.len(),
        keys[i] is Ok,
        is_array_kind(keys[i]->Ok_0.kind),
        !seen_before(keys, values.len() as int, i),
        !is_array_spec(values[i]),
        step_rel(keys, op, values, i, out),
    ensures
        out == Result::<Action, AssignmentError>::Err(
            AssignmentError::InvalidValue(keys[i]->Ok_0.kind, Primitive::Str),
        ),
{
}

/// What [`AssignmentError::message`] says for each variant.
pub open spec fn spec_message(e: AssignmentError) -> Seq<char> {
    match e {
        AssignmentError::InvalidValue(exp, act) => "expected "@ + spec_kind_text(exp)
            + ", but received "@ + spec_kind_text(act),
        AssignmentError::TypeError(TypeError::Invalid(t)) => "invalid type supplied: "@ + t@,
        AssignmentError::ExtraValues(k, v) => "extra values were supplied, and thus ignored. Previous assignment: '"@
            + k@ + "' = '"@ + v@ + "'"@,
        AssignmentError::ExtraKeys(k, v) => "extra keys were supplied, and thus ignored. Previous assignment: '"@
            + k@ + "' = '"@ + v@ + "'"@,
        AssignmentError::RepeatedKey(k) => "repeated assignment to same key, and thus ignored. Repeated key: '"@
            + k@ + "'"@,
        AssignmentError::NoKey(v) => "no key to assign value, thus ignored. Value: '"@ + v@
            + "'"@,
    }
}

impl AssignmentError {
    /// The diagnostic line for this error.
    pub fn message(&self) -> (r: String)
        ensures
            r@ == spec_message(*self),
    {
        match self {
            AssignmentError::InvalidValue(exp, act) => {
                let mut s = String::from_str("expected ");
                let e = exp.kind_text();
                s.append(e.as_str());
                s.append(", but received ");
                let a = act.kind_text();
                s.append(a.as_str());
                s
            },
            AssignmentError::TypeError(TypeError::Invalid(t)) => {
                let mut s = String::from_str("invalid type supplied: ");
                s.append(t.as_str());
                s
            },
            AssignmentError::ExtraValues(k, v) => {
                let mut s = String::from_str(
                    "extra values were supplied, and thus ignored. Previous assignment: '",
                );
                s.append(k.as_str());
                s.append("' = '");
                s.append(v.as_str());
                s.append("'");
                s
            },
            AssignmentError::ExtraKeys(k, v) => {
                let mut s = String::from_str(
                    "extra keys were supplied, and thus ignored. Previous assignment: '",
                );
                s.append(k.as_str());
                s.append("' = '");
                s.append(v.as_str());
                s.append("'");
                s
            },
            AssignmentError::RepeatedKey(k) => {
                let mut s = String::from_str(
                    "repeated assignment to same key, and thus ignored. Repeated key: '",
                );
                s.append(k.as_str());
                s.append("'");
                s
            },
            AssignmentError::NoKey(v) => {
                let mut s = String::from_str("no key to assign value, thus ignored. Value: '");
                s.append(v.as_str());
                s.append("'");
                s
            },
        }
    }
}

} // verus!
