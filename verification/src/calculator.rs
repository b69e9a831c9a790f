//! The expression store: a namespace of variables (name to numeric value)
//! and a namespace of formulas (name to expression text), with one entry
//! point `process` that interprets an input line as a formula definition, a
//! variable definition or a bare expression.
//!
//! Numeric values are 64-bit floating-point results of the `taz` evaluator;
//! the store carries each one as its decimal text, exactly as the evaluator
//! prints it (the shortest text that reads back to the same value). The
//! store itself never computes on values.

use vstd::prelude::*;
use vstd::string::StrSliceExecFns;
use vstd::string::StringExecFns;

use crate::text::find_char;
use crate::text::first_index_of;
use crate::text::lemma_first_index_of_props;
use crate::text::trim_str;
use crate::text::trimmed;

verus! {

/// The view of an association list held as `String` pairs.
pub open spec fn pairs_view(s: Seq<(String, String)>) -> Seq<(Seq<char>, Seq<char>)> {
    s.map_values(|p: (String, String)| (p.0@, p.1@))
}

/// The bindings that an association list denotes, later entries winning.
pub open spec fn bindings_of(s: Seq<(Seq<char>, Seq<char>)>) -> Map<Seq<char>, Seq<char>>
    decreases s.len(),
{
    if s.len() == 0 {
        Map::empty()
    } else {
        bindings_of(s.drop_last()).insert(s.last().0, s.last().1)
    }
}

/// No two entries of the association list share a name.
pub open spec fn distinct_keys(s: Seq<(Seq<char>, Seq<char>)>) -> bool {
    forall|i: int, j: int| 0 <= i < j < s.len() ==> s[i].0 != s[j].0
}

/// Index of the first entry named `name`, if any.
pub open spec fn key_index(s: Seq<(Seq<char>, Seq<char>)>, name: Seq<char>) -> Option<int>
    decreases s.len(),
{
    if s.len() == 0 {
        None
    } else if s.first().0 == name {
        Some(0int)
    } else {
        match key_index(s.drop_first(), name) {
            Some(i) => Some(i + 1),
            None => None,
        }
    }
}

/// Whether the association list has an entry named `name`.
pub open spec fn has_key(s: Seq<(Seq<char>, Seq<char>)>, name: Seq<char>) -> bool {
    key_index(s, name) is Some
}

/// Update the entry named `name` in place, or append one.
pub open spec fn upsert(s: Seq<(Seq<char>, Seq<char>)>, name: Seq<char>, value: Seq<char>) -> Seq<
    (Seq<char>, Seq<char>),
> {
    match key_index(s, name) {
        Some(i) => s.update(i, (name, value)),
        None => s.push((name, value)),
    }
}

/// What the result of `key_index` says about the sequence.
pub proof fn lemma_key_index_props(s: Seq<(Seq<char>, Seq<char>)>, name: Seq<char>)
    ensures
        match key_index(s, name) {
            Some(i) => 0 <= i < s.len() && s[i].0 == name && (forall|j: int|
                0 <= j < i ==> s[j].0 != name),
            None => forall|j: int| 0 <= j < s.len() ==> s[j].0 != name,
        },
    decreases s.len(),
{
    if s.len() > 0 && s.first().0 != name {
        let t = s.drop_first();
        lemma_key_index_props(t, name);
        match key_index(t, name) {
            Some(i) => {
                assert(s[i + 1] == t[i]);
                assert forall|j: int| 0 <= j < i + 1 implies s[j].0 != name by {
                    if j > 0 {
                        assert(s[j] == t[j - 1]);
                    }
                }
            },
            None => {
                assert forall|j: int| 0 <= j < s.len() implies s[j].0 != name by {
                    if j > 0 {
                        assert(s[j] == t[j - 1]);
                    }
                }
            },
        }
    }
}

/// `key_index` from a witness: the first entry named `name` sits at `k`.
pub proof fn lemma_key_index_at(s: Seq<(Seq<char>, Seq<char>)>, name: Seq<char>, k: int)
    requires
        0 <= k < s.len(),
        s[k].0 == name,
        forall|j: int| 0 <= j < k ==> s[j].0 != name,
    ensures
        key_index(s, name) == Some(k),
    decreases k,
{
    if k > 0 {
        lemma_key_index_at(s.drop_first(), name, k - 1);
    }
}

/// `key_index` finds nothing when no entry is named `name`.
pub proof fn lemma_key_index_none(s: Seq<(Seq<char>, Seq<char>)>, name: Seq<char>)
    requires
        forall|j: int| 0 <= j < s.len() ==> s[j].0 != name,
    ensures
        key_index(s, name) is None,
    decreases s.len(),
{
    if s.len() > 0 {
        lemma_key_index_none(s.drop_first(), name);
    }
}

/// An upsert keeps names pairwise distinct, grows the list only for a new
/// name, and adds exactly that name to the held keys.
pub proof fn lemma_upsert_distinct(s: Seq<(Seq<char>, Seq<char>)>, name: Seq<char>, value: Seq<char>)
    requires
        distinct_keys(s),
    ensures
        distinct_keys(upsert(s, name, value)),
        upsert(s, name, value).len() == if has_key(s, name) {
            s.len() as int
        } else {
            s.len() + 1int
        },
        forall|k: Seq<char>| #[trigger] has_key(upsert(s, name, value), k) <==> (has_key(s, k) || k
            == name),
{
    lemma_key_index_props(s, name);
    let out = upsert(s, name, value);
    assert forall|k: Seq<char>| #[trigger] has_key(out, k) implies (has_key(s, k) || k == name) by {
        lemma_key_index_props(out, k);
        let i = key_index(out, k)->Some_0;
        if k != name {
            assert(s[i].0 == k);
            lemma_key_index_at(s, k, i);
        }
    }
    assert forall|k: Seq<char>| has_key(s, k) || k == name implies #[trigger] has_key(out, k) by {
        if k == name {
            match key_index(s, name) {
                Some(i) => {
                    lemma_key_index_at(out, k, i);
                },
                None => {
                    lemma_key_index_at(out, k, s.len() as int);
                },
            }
        } else {
            lemma_key_index_props(s, k);
            let i = key_index(s, k)->Some_0;
            match key_index(s, name) {
                Some(m) => {
                    if m != i {
                        lemma_key_index_at(out, k, i);
                    }
                },
                None => {
                    lemma_key_index_at(out, k, i);
                },
            }
        }
    }
}

/// The verdict of the outside evaluator on an expression under given
/// bindings: the decimal text of the result value, or the message of the
/// error.
pub uninterp spec fn eval_of(expression: Seq<char>, bindings: Map<Seq<char>, Seq<char>>) -> Result<
    Seq<char>,
    Seq<char>,
>;

/// A whitespace character, as Unicode's White_Space set has it (what the
/// evaluator's tokenizer skips).
pub open spec fn is_space(c: char) -> bool {
    c == ' ' || c == '\t' || c == '\n' || c == '\r' || c == '\u{b}' || c == '\u{c}' || c
        == '\u{85}' || c == '\u{a0}' || c == '\u{1680}' || ((c as u32) >= 0x2000 && (c as u32)
        <= 0x200a) || c == '\u{2028}' || c == '\u{2029}' || c == '\u{202f}' || c == '\u{205f}' || c
        == '\u{3000}'
}

/// Executable twin of [`is_space`].
#[verifier::when_used_as_spec(is_space)]
pub fn is_space_char(c: char) -> (r: bool)
    ensures
        r == is_space(c),
{
    c == ' ' || c == '\t' || c == '\n' || c == '\r' || c == '\u{b}' || c == '\u{c}' || c
        == '\u{85}' || c == '\u{a0}' || c == '\u{1680}' || ((c as u32) >= 0x2000 && (c as u32)
        <= 0x200a) || c == '\u{2028}' || c == '\u{2029}' || c == '\u{202f}' || c == '\u{205f}' || c
        == '\u{3000}'
}

/// A character that the evaluator's tokenizer can neither skip nor fold
/// into a parenthesis pair: anything but whitespace, `(` and `)`.
pub open spec fn is_payload(c: char) -> bool {
    !is_space(c) && c != '(' && c != ')'
}

/// Executable twin of [`is_payload`].
#[verifier::when_used_as_spec(is_payload)]
pub fn is_payload_char(c: char) -> (r: bool)
    ensures
        r == is_payload(c),
{
    !is_space_char(c) && c != '(' && c != ')'
}

/// Whether the expression holds at least one payload character.
pub open spec fn has_payload(s: Seq<char>) -> bool {
    exists|i: int| 0 <= i < s.len() && is_payload(s[i])
}

/// Parenthesis nesting depth at the end of the text: `(` opens, `)` closes,
/// everything else is neutral.
pub open spec fn paren_depth(s: Seq<char>) -> int
    decreases s.len(),
{
    if s.len() == 0 {
        0
    } else {
        paren_depth(s.drop_last()) + if s.last() == '(' {
            1int
        } else if s.last() == ')' {
            -1int
        } else {
            0int
        }
    }
}

/// Every parenthesis is matched: the depth never dips below zero and ends
/// at zero.
pub open spec fn parens_matched(s: Seq<char>) -> bool {
    paren_depth(s) == 0 && forall|i: int| 0 <= i <= s.len() ==> paren_depth(#[trigger] s.take(i))
        >= 0
}

/// The expressions the evaluator can judge: anything except whitespace and
/// matched parentheses alone, which tokenize to nothing.
pub open spec fn evaluator_accepts(s: Seq<char>) -> bool {
    has_payload(s) || !parens_matched(s)
}

/// The store's own error text for an expression with nothing to evaluate.
pub open spec fn empty_expression_message() -> Seq<char> {
    "The expression is empty, there is nothing to evaluate"@
}

/// The store's evaluation of one expression: its own rejection of text with
/// nothing to evaluate, else the evaluator's verdict.
pub open spec fn eval_checked(bindings: Map<Seq<char>, Seq<char>>, expression: Seq<char>) -> Result<
    Seq<char>,
    Seq<char>,
> {
    if evaluator_accepts(expression) {
        eval_of(expression, bindings)
    } else {
        Err(empty_expression_message())
    }
}

/// How one input line is read: a bare expression, a variable definition, a
/// formula definition, or a definition whose name is missing — before a
/// plain `=` (`formula` false) or before `:=` (`formula` true).
pub enum LineShape {
    Bare,
    Malformed { formula: bool },
    VariableDef { name: Seq<char>, rhs: Seq<char> },
    FormulaDef { name: Seq<char>, rhs: Seq<char> },
}

/// Reading rule for one input line, in order: no `=` means a bare
/// expression; else the text before the first `=` is trimmed, and an empty
/// name is malformed; a name ending in `:` defines a formula under the name
/// trimmed once more, again refusing an empty one; any other name defines a
/// variable. The text after `=` is kept verbatim.
pub open spec fn line_shape(line: Seq<char>) -> LineShape {
    match first_index_of(line, '=') {
        None => LineShape::Bare,
        Some(i) => {
            let head = trimmed(line.take(i));
            let rhs = line.skip(i + 1);
            if head.len() == 0 {
                LineShape::Malformed { formula: false }
            } else if head.last() == ':' {
                let name = trimmed(head.take(head.len() - 1));
                if name.len() == 0 {
                    LineShape::Malformed { formula: true }
                } else {
                    LineShape::FormulaDef { name, rhs }
                }
            } else {
                LineShape::VariableDef { name: head, rhs }
            }
        },
    }
}

/// One refresh pass: every formula of `todo`, in order, is evaluated against
/// the fixed `snapshot` of the variables, and its result upserted into
/// `acc`; the first failure wins.
pub open spec fn refresh_pass(
    snapshot: Map<Seq<char>, Seq<char>>,
    todo: Seq<(Seq<char>, Seq<char>)>,
    acc: Seq<(Seq<char>, Seq<char>)>,
) -> Result<Seq<(Seq<char>, Seq<char>)>, Seq<char>>
    decreases todo.len(),
{
    if todo.len() == 0 {
        Ok(acc)
    } else {
        match eval_checked(snapshot, todo.first().1) {
            Ok(v) => refresh_pass(snapshot, todo.drop_first(), upsert(acc, todo.first().0, v)),
            Err(m) => Err(m),
        }
    }
}

/// What one `process` call does to the store and returns.
pub enum ProcessStep {
    Done {
        vars: Seq<(Seq<char>, Seq<char>)>,
        formulas: Seq<(Seq<char>, Seq<char>)>,
        name: Seq<char>,
        value: Seq<char>,
    },
    Malformed { formula: bool },
    Failed { message: Seq<char> },
}

/// The store's transition on one input line: refresh all formulas against
/// the prior variable values, read the line, evaluate against the refreshed
/// bindings, and bind the result under the line's name (`last` for a bare
/// expression). On any failure the store is left as it was.
pub open spec fn store_process(
    vars: Seq<(Seq<char>, Seq<char>)>,
    formulas: Seq<(Seq<char>, Seq<char>)>,
    line: Seq<char>,
) -> ProcessStep {
    match refresh_pass(bindings_of(vars), formulas, vars) {
        Err(m) => ProcessStep::Failed { message: m },
        Ok(rv) => match line_shape(line) {
            LineShape::Malformed { formula } => ProcessStep::Malformed { formula },
            LineShape::Bare => match eval_checked(bindings_of(rv), line) {
                Err(m) => ProcessStep::Failed { message: m },
                Ok(v) => ProcessStep::Done {
                    vars: upsert(rv, "last"@, v),
                    formulas,
                    name: "last"@,
                    value: v,
                },
            },
            LineShape::VariableDef { name, rhs } => match eval_checked(bindings_of(rv), rhs) {
                Err(m) => ProcessStep::Failed { message: m },
                Ok(v) => ProcessStep::Done { vars: upsert(rv, name, v), formulas, name, value: v },
            },
            LineShape::FormulaDef { name, rhs } => match eval_checked(bindings_of(rv), rhs) {
                Err(m) => ProcessStep::Failed { message: m },
                Ok(v) => ProcessStep::Done {
                    vars: upsert(rv, name, v),
                    formulas: upsert(formulas, name, rhs),
                    name,
                    value: v,
                },
            },
        },
    }
}

/// What a successful refresh pass does to the held names: distinctness is
/// kept, afterwards every refreshed formula's name is bound, no name
/// appears beyond the old ones and the formula names, and when every
/// formula name was already bound the pass does not grow the list.
pub proof fn lemma_refresh_pass_keys(
    snapshot: Map<Seq<char>, Seq<char>>,
    todo: Seq<(Seq<char>, Seq<char>)>,
    acc: Seq<(Seq<char>, Seq<char>)>,
)
    requires
        distinct_keys(acc),
    ensures
        (refresh_pass(snapshot, todo, acc) matches Ok(out) ==> distinct_keys(out) && (forall|
            k: Seq<char>,
        |
            #[trigger] has_key(out, k) <==> (has_key(acc, k) || exists|i: int|
                0 <= i < todo.len() && todo[i].0 == k)) && ((forall|i: int|
            0 <= i < todo.len() ==> has_key(acc, #[trigger] todo[i].0)) ==> out.len()
            == acc.len())),
    decreases todo.len(),
{
    if todo.len() > 0 {
        match eval_checked(snapshot, todo.first().1) {
            Ok(v) => {
                let head = todo.first().0;
                let rest = todo.drop_first();
                let acc2 = upsert(acc, head, v);
                lemma_upsert_distinct(acc, head, v);
                lemma_refresh_pass_keys(snapshot, rest, acc2);
                if refresh_pass(snapshot, todo, acc) is Ok {
                    let out = refresh_pass(snapshot, todo, acc)->Ok_0;
                    assert forall|k: Seq<char>| #[trigger] has_key(out, k) implies (has_key(acc, k)
                        || exists|i: int| 0 <= i < todo.len() && todo[i].0 == k) by {
                        if !has_key(acc, k) {
                            if k == head {
                                assert(todo[0].0 == k);
                            } else {
                                let i = choose|i: int| 0 <= i < rest.len() && rest[i].0 == k;
                                assert(todo[i + 1].0 == k);
                            }
                        }
                    }
                    assert forall|k: Seq<char>|
                        (has_key(acc, k) || exists|i: int|
                            0 <= i < todo.len() && todo[i].0 == k) implies #[trigger] has_key(
                        out,
                        k,
                    ) by {
                        if has_key(acc, k) || k == head {
                            assert(has_key(acc2, k));
                        } else {
                            let i = choose|i: int| 0 <= i < todo.len() && todo[i].0 == k;
                            assert(rest[i - 1].0 == k);
                        }
                    }
                    if forall|i: int| 0 <= i < todo.len() ==> has_key(acc, #[trigger] todo[i].0) {
                        assert(has_key(acc, todo[0].0));
                        assert forall|i: int| 0 <= i < rest.len() implies has_key(
                            acc2,
                            #[trigger] rest[i].0,
                        ) by {
                            assert(rest[i] == todo[i + 1]);
                            assert(has_key(acc, todo[i + 1].0));
                        }
                        assert(acc2.len() == acc.len());
                    }
                }
            },
            Err(_) => {
            },
        }
    }
}

/// A bare expression always binds under the one name `last`: it leaves the
/// formulas as they are, and once it has been processed, processing any
/// bare expression again cannot grow the variable namespace.
pub proof fn lemma_repeated_bare_expression(
    vars: Seq<(Seq<char>, Seq<char>)>,
    formulas: Seq<(Seq<char>, Seq<char>)>,
    line: Seq<char>,
)
    requires
        distinct_keys(vars),
        distinct_keys(formulas),
        line_shape(line) is Bare,
    ensures
        (store_process(vars, formulas, line) matches ProcessStep::Done {
            vars: v1,
            formulas: f1,
            name: n1,
            ..
        } ==> n1 == "last"@ && f1 == formulas && (store_process(v1, f1, line) matches
            ProcessStep::Done { vars: v2, name: n2, .. } ==> n2 == "last"@ && v2.len()
            == v1.len())),
{
    match store_process(vars, formulas, line) {
        ProcessStep::Done { vars: v1, formulas: f1, name: n1, value: _ } => {
            lemma_refresh_pass_keys(bindings_of(vars), formulas, vars);
            let rv1 = refresh_pass(bindings_of(vars), formulas, vars)->Ok_0;
            let val1 = eval_checked(bindings_of(rv1), line)->Ok_0;
            lemma_upsert_distinct(rv1, "last"@, val1);
            assert(v1 == upsert(rv1, "last"@, val1));
            assert(distinct_keys(v1));
            assert(has_key(v1, "last"@));
            assert forall|i: int| 0 <= i < formulas.len() implies has_key(
                v1,
                #[trigger] formulas[i].0,
            ) by {
                assert(exists|j: int| 0 <= j < formulas.len() && formulas[j].0 == formulas[i].0);
                assert(has_key(rv1, formulas[i].0));
            }
            match store_process(v1, f1, line) {
                ProcessStep::Done { vars: v2, formulas: _, name: n2, value: _ } => {
                    lemma_refresh_pass_keys(bindings_of(v1), formulas, v1);
                    let rv2 = refresh_pass(bindings_of(v1), formulas, v1)->Ok_0;
                    let val2 = eval_checked(bindings_of(rv2), line)->Ok_0;
                    assert(rv2.len() == v1.len());
                    assert(has_key(rv2, "last"@));
                    lemma_upsert_distinct(rv2, "last"@, val2);
                    assert(v2 == upsert(rv2, "last"@, val2));
                    assert(v2.len() == rv2.len());
                },
                _ => {
                },
            }
        },
        _ => {
        },
    }
}

/// An error from processing one line: a definition without a name, or the
/// evaluator's own message, passed on verbatim. A malformed assignment says
/// whether the missing name stood before a plain `=` or before `:=`.
#[derive(Debug)]
pub enum CalcError {
    MalformedAssignment { formula: bool },
    Evaluation(String),
}

impl CalcError {
    /// The text shown to the user for this error.
    pub fn message(&self) -> (r: String)
        ensures
            (self matches CalcError::MalformedAssignment { formula: false } ==> r@
                == "The expression is erroned, please enter a name for variable or expression"@),
            (self matches CalcError::MalformedAssignment { formula: true } ==> r@
                == "The expression is erroned, please enter name for expression"@),
            (self matches CalcError::Evaluation(m) ==> r@ == m@),
    {
        match self {
            CalcError::MalformedAssignment { formula: false } => String::from_str(
                "The expression is erroned, please enter a name for variable or expression",
            ),
            CalcError::MalformedAssignment { formula: true } => String::from_str(
                "The expression is erroned, please enter name for expression",
            ),
            CalcError::Evaluation(m) => m.clone(),
        }
    }
}

/// Relies on `taz::evaluate` (taz 1.0.0): the value of a mathematical
/// expression is a function of the expression text and of the variable
/// bindings alone (the map is only looked up, never walked; nothing depends
/// on chance, time or the environment, though the decimal text of a
/// transcendental result is the platform math library's answer). Each
/// binding travels as the decimal text of its 64-bit float value and is
/// read back before the call; one whose text does not read back as a number
/// is absent for the call, so with distinct names the bindings handed over
/// are exactly the map of the contract. The result value comes back as its
/// own decimal text. The `requires` keeps out exactly the inputs on which
/// `taz` 1.0.0 does not return: text whose tokens are only whitespace and
/// matched parentheses.
#[verifier::external_body]
fn taz_evaluate(expression: &String, variables: &Vec<(String, String)>) -> (r: Result<
    String,
    String,
>)
    requires
        evaluator_accepts(expression@),
        distinct_keys(pairs_view(variables@)),
    ensures
        (r is Ok <==> eval_of(expression@, bindings_of(pairs_view(variables@))) is Ok),
        (r matches Ok(v) ==> eval_of(expression@, bindings_of(pairs_view(variables@)))
            == Result::<Seq<char>, Seq<char>>::Ok(v@)),
        (r matches Err(m) ==> eval_of(expression@, bindings_of(pairs_view(variables@))) matches Err(
            t,
        ) && m@ == t),
{
    let mut bindings = std::collections::HashMap::new();
    for pair in variables.iter() {
        match pair.1.parse() {
            Ok(value) => {
                bindings.insert(pair.0.clone(), value);
            },
            Err(_) => {
                bindings.remove(&pair.0);
            },
        }
    }
    match taz::evaluate(expression, &bindings) {
        Ok(value) => Ok(value.to_string()),
        Err(message) => Err(message),
    }
}

/// Whether the evaluator returns a verdict on this text: one pass over the
/// characters, looking for a payload character or an unmatched parenthesis.
fn evaluator_accepts_str(s: &str) -> (r: bool)
    ensures
        r == evaluator_accepts(s@),
{
    let n: usize = s.unicode_len();
    let mut depth: usize = 0;
    let mut k: usize = 0;
    while k < n
        invariant
            0 <= k <= n == s@.len(),
            depth <= k,
            forall|j: int| 0 <= j < k ==> !is_payload(s@[j]),
            depth as int == paren_depth(s@.take(k as int)),
            forall|i: int| 0 <= i <= k ==> paren_depth(#[trigger] s@.take(i)) >= 0,
        decreases n - k,
    {
        let c = s.get_char(k);
        proof {
            assert(s@.take(k + 1).drop_last() =~= s@.take(k as int));
            assert(s@.take(k + 1).last() == s@[k as int]);
        }
        if is_payload_char(c) {
            return true;
        }
        if c == '(' {
            depth = depth + 1;
        } else if c == ')' {
            if depth == 0 {
                proof {
                    assert(paren_depth(s@.take(k + 1)) < 0);
                    assert(!parens_matched(s@));
                }
                return true;
            }
            depth = depth - 1;
        }
        k = k + 1;
    }
    proof {
        assert(s@.take(n as int) =~= s@);
    }
    if depth > 0 {
        true
    } else {
        false
    }
}

/// Evaluate one expression against the variables: text with nothing to
/// evaluate is rejected by the store itself, anything else goes to the
/// evaluator.
fn eval_guarded(expression: &String, variables: &Vec<(String, String)>) -> (r: Result<
    String,
    String,
>)
    requires
        distinct_keys(pairs_view(variables@)),
    ensures
        (r is Ok <==> eval_checked(bindings_of(pairs_view(variables@)), expression@) is Ok),
        (r matches Ok(v) ==> eval_checked(bindings_of(pairs_view(variables@)), expression@)
            == Result::<Seq<char>, Seq<char>>::Ok(v@)),
        (r matches Err(m) ==> eval_checked(bindings_of(pairs_view(variables@)), expression@)
            matches Err(t) && m@ == t),
{
    if evaluator_accepts_str(expression.as_str()) {
        taz_evaluate(expression, variables)
    } else {
        Err(String::from_str("The expression is empty, there is nothing to evaluate"))
    }
}

/// How one input line was read, with the parts as owned strings.
enum ParsedLine {
    Bare,
    Malformed { formula: bool },
    VariableDef { name: String, rhs: String },
    FormulaDef { name: String, rhs: String },
}

/// Read one input line, following [`line_shape`].
fn parse_line(line: &String) -> (r: ParsedLine)
    ensures
        match r {
            ParsedLine::Bare => line_shape(line@) is Bare,
            ParsedLine::Malformed { formula } => (line_shape(line@) matches LineShape::Malformed {
                formula: f,
            } && formula == f),
            ParsedLine::VariableDef { name, rhs } => (line_shape(line@) matches LineShape::VariableDef {
                name: n,
                rhs: t,
            } && name@ == n && rhs@ == t),
            ParsedLine::FormulaDef { name, rhs } => (line_shape(line@) matches LineShape::FormulaDef {
                name: n,
                rhs: t,
            } && name@ == n && rhs@ == t),
        },
{
    let s = line.as_str();
    match find_char(s, '=') {
        None => ParsedLine::Bare,
        Some(i) => {
            proof {
                lemma_first_index_of_props(line@, '=');
            }
            let n: usize = s.unicode_len();
            let head = trim_str(s.substring_char(0, i));
            let rhs = s.substring_char(i + 1, n);
            proof {
                assert(line@.subrange(0, i as int) =~= line@.take(i as int));
                assert(line@.subrange(i + 1, n as int) =~= line@.skip(i + 1));
            }
            let head_len: usize = head.unicode_len();
            if head_len == 0 {
                ParsedLine::Malformed { formula: false }
            } else if head.get_char(head_len - 1) == ':' {
                let name = trim_str(head.substring_char(0, head_len - 1));
                proof {
                    assert(head@.subrange(0, head_len - 1) =~= head@.take(head_len - 1));
                }
                if name.unicode_len() == 0 {
                    ParsedLine::Malformed { formula: true }
                } else {
                    ParsedLine::FormulaDef { name: name.to_owned(), rhs: rhs.to_owned() }
                }
            } else {
                ParsedLine::VariableDef { name: head.to_owned(), rhs: rhs.to_owned() }
            }
        },
    }
}

/// A copy of an association list of strings.
fn clone_pairs(v: &Vec<(String, String)>) -> (r: Vec<(String, String)>)
    ensures
        r@ == v@,
{
    let n = v.len();
    let mut out: Vec<(String, String)> = Vec::with_capacity(n);
    let mut i: usize = 0;
    while i < n
        invariant
            0 <= i <= n == v@.len(),
            out@ == v@.take(i as int),
        decreases n - i,
    {
        let name = v[i].0.clone();
        let value = v[i].1.clone();
        out.push((name, value));
        proof {
            assert(out@ =~= v@.take(i + 1));
        }
        i = i + 1;
    }
    proof {
        assert(v@.take(n as int) =~= v@);
    }
    out
}

/// Index of the first entry named `name`, if any.
fn find_key(v: &Vec<(String, String)>, name: &String) -> (r: Option<usize>)
    ensures
        match r {
            Some(i) => i < v@.len() && v@[i as int].0@ == name@ && (forall|j: int|
                0 <= j < i ==> v@[j].0@ != name@),
            None => forall|j: int| 0 <= j < v@.len() ==> v@[j].0@ != name@,
        },
{
    let n = v.len();
    let mut k: usize = 0;
    while k < n
        invariant
            0 <= k <= n == v@.len(),
            forall|j: int| 0 <= j < k ==> v@[j].0@ != name@,
        decreases n - k,
    {
        if v[k].0.eq(name) {
            return Some(k);
        }
        k = k + 1;
    }
    None
}

/// Update the entry named `name` in place, or append one.
fn upsert_entry(v: &mut Vec<(String, String)>, name: String, value: String)
    ensures
        pairs_view(final(v)@) == upsert(pairs_view(old(v)@), name@, value@),
{
    let ghost sv = pairs_view(old(v)@);
    proof {
        assert(forall|j: int| 0 <= j < old(v)@.len() ==> sv[j] == (old(v)@[j].0@, old(v)@[j].1@));
    }
    match find_key(v, &name) {
        Some(i) => {
            proof {
                lemma_key_index_at(sv, name@, i as int);
            }
            v[i] = (name, value);
            proof {
                assert(pairs_view(v@) =~= upsert(sv, name@, value@));
            }
        },
        None => {
            proof {
                lemma_key_index_none(sv, name@);
            }
            v.push((name, value));
            proof {
                assert(pairs_view(v@) =~= upsert(sv, name@, value@));
            }
        },
    }
}

/// The store of variables and formulas behind `process`.
pub struct Calculator {
    variables: Vec<(String, String)>,
    formulas: Vec<(String, String)>,
}

impl Calculator {
    /// The variable namespace, each entry as (name, value text).
    pub closed spec fn vars_seq(&self) -> Seq<(Seq<char>, Seq<char>)> {
        pairs_view(self.variables@)
    }

    /// The formula namespace, each entry as (name, expression text).
    pub closed spec fn formulas_seq(&self) -> Seq<(Seq<char>, Seq<char>)> {
        pairs_view(self.formulas@)
    }

    /// Both namespaces keep their names pairwise distinct.
    pub open spec fn wf(&self) -> bool {
        distinct_keys(self.vars_seq()) && distinct_keys(self.formulas_seq())
    }

    /// Create an empty calculator.
    pub fn new() -> (r: Calculator)
        ensures
            r.wf(),
            r.vars_seq() == Seq::<(Seq<char>, Seq<char>)>::empty(),
            r.formulas_seq() == Seq::<(Seq<char>, Seq<char>)>::empty(),
    {
        let r = Calculator { variables: Vec::with_capacity(100), formulas: Vec::with_capacity(100) };
        proof {
            assert(r.vars_seq() =~= Seq::<(Seq<char>, Seq<char>)>::empty());
            assert(r.formulas_seq() =~= Seq::<(Seq<char>, Seq<char>)>::empty());
        }
        r
    }

    /// Number of variables held.
    pub fn variable_count(&self) -> (r: usize)
        ensures
            r == self.vars_seq().len(),
    {
        self.variables.len()
    }

    /// Number of formulas held.
    pub fn formula_count(&self) -> (r: usize)
        ensures
            r == self.formulas_seq().len(),
    {
        self.formulas.len()
    }

    /// Bind `name` to a value text directly, as an evaluation of its
    /// definition would.
    pub fn set_variable(&mut self, name: String, value: String)
        requires
            old(self).wf(),
        ensures
            final(self).wf(),
            final(self).vars_seq() == upsert(old(self).vars_seq(), name@, value@),
            final(self).formulas_seq() == old(self).formulas_seq(),
    {
        proof {
            lemma_upsert_distinct(self.vars_seq(), name@, value@);
        }
        upsert_entry(&mut self.variables, name, value);
    }

    /// Store `expression` as the formula named `name` directly, without
    /// evaluating it now.
    pub fn set_formula(&mut self, name: String, expression: String)
        requires
            old(self).wf(),
        ensures
            final(self).wf(),
            final(self).formulas_seq() == upsert(old(self).formulas_seq(), name@, expression@),
            final(self).vars_seq() == old(self).vars_seq(),
    {
        proof {
            lemma_upsert_distinct(self.formulas_seq(), name@, expression@);
        }
        upsert_entry(&mut self.formulas, name, expression);
    }

    /// Process one input line: refresh every formula against the variable
    /// values of the previous round, then interpret the line as a formula
    /// definition, a variable definition or a bare expression, evaluate it,
    /// and return the bound name with the value's text. On any error the
    /// store is left exactly as it was.
    pub fn process(&mut self, expression: &String) -> (r: Result<(String, String), CalcError>)
        requires
            old(self).wf(),
        ensures
            final(self).wf(),
            ({
                let step = store_process(
                    old(self).vars_seq(),
                    old(self).formulas_seq(),
                    expression@,
                );
                match r {
                    Ok((bound, value)) => (step matches ProcessStep::Done {
                        vars,
                        formulas,
                        name,
                        value: v,
                    } && bound@ == name && value@ == v && final(self).vars_seq() == vars
                        && final(self).formulas_seq() == formulas),
                    Err(CalcError::MalformedAssignment { formula }) => (step matches
                        ProcessStep::Malformed { formula: f } && formula == f && *final(self)
                        == *old(self)),
                    Err(CalcError::Evaluation(m)) => (step matches ProcessStep::Failed { message }
                        && m@ == message && *final(self) == *old(self)),
                }
            }),
    {
        let ghost snapshot_map = bindings_of(old(self).vars_seq());
        let ghost all_formulas = old(self).formulas_seq();

        // One refresh pass, accumulated beside the store so that a failure
        // leaves the store untouched.
        let mut refreshed = clone_pairs(&self.variables);
        let n = self.formulas.len();
        let mut i: usize = 0;
        proof {
            assert(all_formulas.skip(0) =~= all_formulas);
        }
        while i < n
            invariant
                old(self).wf(),
                *self == *old(self),
                n == self.formulas@.len(),
                0 <= i <= n,
                snapshot_map == bindings_of(old(self).vars_seq()),
                all_formulas == old(self).formulas_seq(),
                distinct_keys(pairs_view(refreshed@)),
                refresh_pass(snapshot_map, all_formulas, old(self).vars_seq()) == refresh_pass(
                    snapshot_map,
                    all_formulas.skip(i as int),
                    pairs_view(refreshed@),
                ),
            decreases n - i,
        {
            proof {
                assert(all_formulas[i as int] == (self.formulas@[i as int].0@,
                self.formulas@[i as int].1@));
                assert(all_formulas.skip(i as int).first() == all_formulas[i as int]);
                assert(all_formulas.skip(i as int).drop_first() =~= all_formulas.skip(i + 1));
            }
            let outcome = eval_guarded(&self.formulas[i].1, &self.variables);
            match outcome {
                Ok(value) => {
                    proof {
                        lemma_upsert_distinct(
                            pairs_view(refreshed@),
                            self.formulas@[i as int].0@,
                            value@,
                        );
                    }
                    let fname = self.formulas[i].0.clone();
                    upsert_entry(&mut refreshed, fname, value);
                },
                Err(message) => {
                    return Err(CalcError::Evaluation(message));
                },
            }
            i = i + 1;
        }
        proof {
            assert(all_formulas.skip(n as int) =~= Seq::<(Seq<char>, Seq<char>)>::empty());
        }

        // Interpret the line and evaluate against the refreshed bindings.
        match parse_line(expression) {
            ParsedLine::Malformed { formula } => Err(CalcError::MalformedAssignment { formula }),
            ParsedLine::Bare => {
                match eval_guarded(expression, &refreshed) {
                    Err(message) => Err(CalcError::Evaluation(message)),
                    Ok(value) => {
                        proof {
                            lemma_upsert_distinct(pairs_view(refreshed@), "last"@, value@);
                        }
                        let bound = String::from_str("last");
                        let result_value = value.clone();
                        upsert_entry(&mut refreshed, bound.clone(), value);
                        self.variables = refreshed;
                        Ok((bound, result_value))
                    },
                }
            },
            ParsedLine::VariableDef { name, rhs } => {
                match eval_guarded(&rhs, &refreshed) {
                    Err(message) => Err(CalcError::Evaluation(message)),
                    Ok(value) => {
                        proof {
                            lemma_upsert_distinct(pairs_view(refreshed@), name@, value@);
                        }
                        let result_value = value.clone();
                        upsert_entry(&mut refreshed, name.clone(), value);
                        self.variables = refreshed;
                        Ok((name, result_value))
                    },
                }
            },
            ParsedLine::FormulaDef { name, rhs } => {
                match eval_guarded(&rhs, &refreshed) {
                    Err(message) => Err(CalcError::Evaluation(message)),
                    Ok(value) => {
                        proof {
                            lemma_upsert_distinct(pairs_view(refreshed@), name@, value@);
                            lemma_upsert_distinct(old(self).formulas_seq(), name@, rhs@);
                        }
                        let result_value = value.clone();
                        upsert_entry(&mut self.formulas, name.clone(), rhs);
                        upsert_entry(&mut refreshed, name.clone(), value);
                        self.variables = refreshed;
                        Ok((name, result_value))
                    },
                }
            },
        }
    }
}

} // verus!
