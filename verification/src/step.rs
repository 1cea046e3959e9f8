use std::time::Duration;
use vstd::prelude::*;

use crate::error::{error_text, Error};
use crate::outside::{debug_quoted, debug_text, duration_nanos};
use crate::session::{
    bytes_result, ends_at_first_delimiter, read_once, sent_then_flushed, until_outcome, IoCall,
    SerialSession,
};
use crate::transport::{bytes_to_vec, min_nat, Transport};
use vstd::utf8::encode_utf8;

verus! {

/// The largest `max_bytes` a read step may ask for.
pub const MAX_READ_BYTES: usize = 1048576;

pub open spec fn is_step_id_char(c: char) -> bool {
    ||| ('a' as u32) <= (c as u32) <= ('z' as u32)
    ||| ('0' as u32) <= (c as u32) <= ('9' as u32)
    ||| c == '-'
}

/// Step IDs are nonempty, hyphen-separated segments of lowercase ASCII letters and
/// digits, where every segment is nonempty.
pub open spec fn is_valid_step_id(s: Seq<char>) -> bool {
    &&& s.len() > 0
    &&& forall|i: int| 0 <= i < s.len() ==> is_step_id_char(#[trigger] s[i])
    &&& s[0] != '-'
    &&& s[s.len() - 1] != '-'
    &&& forall|i: int| 0 <= i < s.len() - 1 ==> !(#[trigger] s[i] == '-' && s[i + 1] == '-')
}

/// A validated step identifier.
#[derive(Debug, PartialEq, Eq, Hash)]
pub struct StepId(String);

impl View for StepId {
    type V = Seq<char>;

    closed spec fn view(&self) -> Seq<char> {
        self.0@
    }
}

impl Clone for StepId {
    fn clone(&self) -> (copy: Self)
        ensures
            copy@ == self@,
    {
        proof {
            use_type_invariant(self);
        }
        StepId(self.0.clone())
    }
}

/// Two step kinds define the same thing: texts with the same characters, the same
/// bytes, waits of the same length, the same limits and counts, and equivalent children.
pub open spec fn kind_equiv(a: StepKind, b: StepKind) -> bool
    decreases a,
{
    match (a, b) {
        (StepKind::SendText(x), StepKind::SendText(y)) => x@ == y@,
        (StepKind::SendBytes(x), StepKind::SendBytes(y)) => x@ == y@,
        (StepKind::Wait(x), StepKind::Wait(y)) => duration_nanos(x) == duration_nanos(y),
        (StepKind::Read { max_bytes: x }, StepKind::Read { max_bytes: y }) => x == y,
        (
            StepKind::ReadUntil { delimiter: d1, max_bytes: m1 },
            StepKind::ReadUntil { delimiter: d2, max_bytes: m2 },
        ) => d1@ == d2@ && m1 == m2,
        (StepKind::Repeat { count: c1, steps: s1 }, StepKind::Repeat { count: c2, steps: s2 }) => {
            proof {
                assert(decreases_to!(a => a->steps));
                assert(decreases_to!(a->steps => s1@));
            }
            c1 == c2 && steps_equiv(s1@, s2@)
        },
        _ => false,
    }
}

/// Two steps define the same thing: the same ID and equivalent kinds.
pub open spec fn step_equiv(a: Step, b: Step) -> bool
    decreases a,
{
    a.id@ == b.id@ && kind_equiv(a.kind, b.kind)
}

pub open spec fn steps_equiv(a: Seq<Step>, b: Seq<Step>) -> bool
    decreases a,
{
    if a.len() == 0 {
        b.len() == 0
    } else {
        &&& b.len() == a.len()
        &&& step_equiv(a[0], b[0])
        &&& steps_equiv(a.drop_first(), b.drop_first())
    }
}

/// `steps_equiv` holds exactly when the steps are pairwise equivalent.
pub proof fn lemma_steps_equiv_forall(a: Seq<Step>, b: Seq<Step>)
    ensures
        steps_equiv(a, b) <==> (a.len() == b.len() && forall|i: int|
            0 <= i < a.len() ==> #[trigger] step_equiv(a[i], b[i])),
    decreases a.len(),
{
    if a.len() > 0 {
        lemma_steps_equiv_forall(a.drop_first(), b.drop_first());
        if a.len() == b.len() && forall|i: int| 0 <= i < a.len() ==> #[trigger] step_equiv(a[i], b[i]) {
            assert(step_equiv(a[0], b[0]));
            assert forall|i: int| 0 <= i < a.drop_first().len() implies #[trigger] step_equiv(
                a.drop_first()[i],
                b.drop_first()[i],
            ) by {
                assert(step_equiv(a[i + 1], b[i + 1]));
            }
        }
        if steps_equiv(a, b) {
            assert forall|i: int| 0 <= i < a.len() implies #[trigger] step_equiv(a[i], b[i]) by {
                if i > 0 {
                    assert(step_equiv(a.drop_first()[i - 1], b.drop_first()[i - 1]));
                }
            }
        }
    }
}

pub proof fn lemma_steps_equiv_intro(a: Seq<Step>, b: Seq<Step>)
    requires
        a.len() == b.len(),
        forall|i: int| 0 <= i < a.len() ==> #[trigger] step_equiv(a[i], b[i]),
    ensures
        steps_equiv(a, b),
{
    lemma_steps_equiv_forall(a, b);
}

/// The rejected text of an invalid step ID.
#[derive(Debug, Clone, PartialEq, Eq)]
pub struct InvalidStepId(pub String);

impl StepId {
    pub fn new(value: &str) -> (result: Result<StepId, InvalidStepId>)
        ensures
            match result {
                Ok(id) => is_valid_step_id(value@) && id@ == value@,
                Err(InvalidStepId(text)) => !is_valid_step_id(value@) && text@ == value@,
            },
    {
        let n = value.unicode_len();
        let mut valid = n > 0;
        let mut i: usize = 0;
        while i < n
            invariant
                n == value@.len(),
                i <= n,
                valid == (n > 0 && forall|j: int| 0 <= j < i ==> {
                    &&& is_step_id_char(#[trigger] value@[j])
                    &&& (j == 0 ==> value@[j] != '-')
                    &&& (j == n - 1 ==> value@[j] != '-')
                    &&& (j + 1 < n ==> !(value@[j] == '-' && value@[j + 1] == '-'))
                }),
            decreases n - i,
        {
            let c = value.get_char(i);
            let allowed = ('a' <= c && c <= 'z') || ('0' <= c && c <= '9') || c == '-';
            let mut ok = allowed;
            if c == '-' {
                if i == 0 || i + 1 == n {
                    ok = false;
                } else {
                    let next = value.get_char(i + 1);
                    if next == '-' {
                        ok = false;
                    }
                }
            }
            valid = valid && ok;
            i = i + 1;
        }
        proof {
            if valid {
                assert forall|j: int| 0 <= j < value@.len() - 1 implies !(#[trigger] value@[j] == '-'
                    && value@[j + 1] == '-') by {}
            } else if n > 0 {
                if is_valid_step_id(value@) {
                    assert forall|j: int| 0 <= j < n implies {
                        &&& is_step_id_char(#[trigger] value@[j])
                        &&& (j == 0 ==> value@[j] != '-')
                        &&& (j == n - 1 ==> value@[j] != '-')
                        &&& (j + 1 < n ==> !(value@[j] == '-' && value@[j + 1] == '-'))
                    } by {}
                }
            }
        }
        if valid {
            Ok(StepId(value.to_owned()))
        } else {
            Err(InvalidStepId(value.to_owned()))
        }
    }

    /// The ID's text, which is always a valid step ID.
    pub fn as_str(&self) -> (text: &str)
        ensures
            text@ == self@,
            is_valid_step_id(self@),
    {
        proof {
            use_type_invariant(self);
        }
        self.0.as_str()
    }

    /// Only valid IDs are ever made.
    #[verifier::type_invariant]
    spec fn holds_valid_id(self) -> bool {
        is_valid_step_id(self.0@)
    }
}


#[derive(Debug, PartialEq, Eq)]
pub struct Step {
    pub id: StepId,
    pub kind: StepKind,
}

#[derive(Debug, PartialEq, Eq)]
pub enum StepKind {
    SendText(String),
    SendBytes(Vec<u8>),
    Wait(Duration),
    Read { max_bytes: usize },
    ReadUntil { delimiter: Vec<u8>, max_bytes: usize },
    Repeat { count: usize, steps: Vec<Step> },
}

/// The first problem found in a step tree.
#[derive(Debug, Clone, PartialEq, Eq)]
pub struct ValidationError {
    pub step_id: StepId,
    pub reason: ValidationReason,
}

#[derive(Debug, Clone, Copy, PartialEq, Eq)]
pub enum ValidationReason {
    DuplicateId,
    EmptySend,
    InvalidReadLimit,
    EmptyDelimiter,
    DelimiterExceedsReadLimit,
    ZeroRepeatCount,
}

impl Clone for Step {
    fn clone(&self) -> (copy: Self)
        ensures
            step_equiv(copy, *self),
        decreases self, 1int,
    {
        Step { id: self.id.clone(), kind: self.kind.clone() }
    }
}

impl Clone for StepKind {
    fn clone(&self) -> (copy: Self)
        ensures
            kind_equiv(copy, *self),
        decreases self, 0int,
    {
        match self {
            StepKind::SendText(text) => StepKind::SendText(text.clone()),
            StepKind::SendBytes(bytes) => StepKind::SendBytes(bytes.clone()),
            StepKind::Wait(duration) => StepKind::Wait(*duration),
            StepKind::Read { max_bytes } => StepKind::Read { max_bytes: *max_bytes },
            StepKind::ReadUntil { delimiter, max_bytes } => StepKind::ReadUntil {
                delimiter: delimiter.clone(),
                max_bytes: *max_bytes,
            },
            StepKind::Repeat { count, steps } => {
                let mut copies: Vec<Step> = Vec::new();
                let mut i: usize = 0;
                while i < steps.len()
                    invariant
                        i <= steps@.len(),
                        *self is Repeat,
                        self->steps == *steps,
                        copies@.len() == i,
                        forall|j: int| 0 <= j < i ==> #[trigger] step_equiv(copies@[j], steps@[j]),
                    decreases steps@.len() - i,
                {
                    proof {
                        assert(decreases_to!(*self => self->steps));
                        assert(decreases_to!(self->steps => self->steps@));
                        assert(decreases_to!(self->steps@ => steps@[i as int]));
                    }
                    copies.push(steps[i].clone());
                    i = i + 1;
                }
                proof {
                    lemma_steps_equiv_intro(copies@, steps@);
                }
                StepKind::Repeat { count: *count, steps: copies }
            },
        }
    }
}

/// The child steps of a repeat step; other steps have none.
pub open spec fn child_steps(step: Step) -> Seq<Step> {
    match step.kind {
        StepKind::Repeat { steps, .. } => steps@,
        _ => Seq::empty(),
    }
}

/// Every step of a tree, each before its children, children before later siblings.
pub open spec fn preorder(steps: Seq<Step>) -> Seq<Step>
    decreases steps,
{
    if steps.len() == 0 {
        Seq::empty()
    } else {
        let nested = match steps[0].kind {
            StepKind::Repeat { steps: children, .. } => preorder(children@),
            _ => Seq::empty(),
        };
        seq![steps[0]] + nested + preorder(steps.drop_first())
    }
}

pub open spec fn step_ids(steps: Seq<Step>) -> Seq<Seq<char>> {
    steps.map_values(|step: Step| step.id@)
}

/// What is wrong with a step on its own, apart from its place in the tree.
pub open spec fn local_issue(step: Step) -> Option<ValidationReason> {
    match step.kind {
        StepKind::SendText(text) => if text@.len() == 0 {
            Some(ValidationReason::EmptySend)
        } else {
            None
        },
        StepKind::SendBytes(bytes) => if bytes@.len() == 0 {
            Some(ValidationReason::EmptySend)
        } else {
            None
        },
        StepKind::Wait(_) => None,
        StepKind::Read { max_bytes } => if max_bytes == 0 || max_bytes > MAX_READ_BYTES {
            Some(ValidationReason::InvalidReadLimit)
        } else {
            None
        },
        StepKind::ReadUntil { delimiter, max_bytes } => if max_bytes == 0 || max_bytes
            > MAX_READ_BYTES {
            Some(ValidationReason::InvalidReadLimit)
        } else if delimiter@.len() == 0 {
            Some(ValidationReason::EmptyDelimiter)
        } else if delimiter@.len() > max_bytes {
            Some(ValidationReason::DelimiterExceedsReadLimit)
        } else {
            None
        },
        StepKind::Repeat { count, .. } => if count == 0 {
            Some(ValidationReason::ZeroRepeatCount)
        } else {
            None
        },
    }
}

/// The issue of the `k`-th step of `flat`, given the IDs already seen before `flat`:
/// a repeated ID first, otherwise the step's own issue.
pub open spec fn issue_at(prior: Seq<Seq<char>>, flat: Seq<Step>, k: int) -> Option<ValidationReason> {
    if (prior + step_ids(flat.take(k))).contains(flat[k].id@) {
        Some(ValidationReason::DuplicateId)
    } else {
        local_issue(flat[k])
    }
}

/// `error` reports the first issue of `flat`.
pub open spec fn reports_first_issue(prior: Seq<Seq<char>>, flat: Seq<Step>, error: ValidationError) -> bool {
    exists|k: int|
        0 <= k < flat.len() && (forall|j: int| 0 <= j < k ==> #[trigger] issue_at(prior, flat, j) is None)
            && issue_at(prior, flat, k) == Some(error.reason) && error.step_id@ == flat[k].id@
}

pub open spec fn has_no_issue(prior: Seq<Seq<char>>, flat: Seq<Step>) -> bool {
    forall|k: int| 0 <= k < flat.len() ==> #[trigger] issue_at(prior, flat, k) is None
}

/// The whole tree is valid: no step has an issue.
pub open spec fn steps_valid(steps: Seq<Step>) -> bool {
    has_no_issue(Seq::empty(), preorder(steps))
}

pub proof fn lemma_preorder_append(a: Seq<Step>, b: Seq<Step>)
    ensures
        preorder(a + b) == preorder(a) + preorder(b),
    decreases a.len(),
{
    if a.len() == 0 {
        assert(a + b =~= b);
        assert(preorder(a) =~= Seq::<Step>::empty());
        assert(preorder(a) + preorder(b) =~= preorder(b));
    } else {
        assert((a + b)[0] == a[0]);
        assert((a + b).drop_first() =~= a.drop_first() + b);
        lemma_preorder_append(a.drop_first(), b);
        let nested = match a[0].kind {
            StepKind::Repeat { steps: children, .. } => preorder(children@),
            _ => Seq::empty(),
        };
        assert(preorder(a + b) =~= seq![a[0]] + nested + (preorder(a.drop_first()) + preorder(b)));
        assert(preorder(a) =~= seq![a[0]] + nested + preorder(a.drop_first()));
        assert(preorder(a + b) =~= preorder(a) + preorder(b));
    }
}

pub proof fn lemma_preorder_single(step: Step)
    ensures
        preorder(seq![step]) == seq![step] + preorder(child_steps(step)),
{
    let s = seq![step];
    assert(s.drop_first() =~= Seq::<Step>::empty());
    assert(preorder(s.drop_first()) =~= Seq::<Step>::empty());
    match step.kind {
        StepKind::Repeat { steps: children, .. } => {
            assert(preorder(s) =~= seq![step] + preorder(children@));
        },
        _ => {
            assert(preorder(child_steps(step)) =~= Seq::<Step>::empty());
            assert(preorder(s) =~= seq![step]);
        },
    }
}

/// Issues are local to their position: splitting `flat` into `a + b` leaves each
/// position's issue unchanged, with the IDs of `a` counted as prior for `b`.
pub proof fn lemma_issue_split(prior: Seq<Seq<char>>, a: Seq<Step>, b: Seq<Step>, k: int)
    requires
        0 <= k < a.len() + b.len(),
    ensures
        k < a.len() ==> issue_at(prior, a + b, k) == issue_at(prior, a, k),
        k >= a.len() ==> issue_at(prior, a + b, k) == issue_at(prior + step_ids(a), b, k - a.len()),
{
    let flat = a + b;
    if k < a.len() {
        assert(flat.take(k) =~= a.take(k));
        assert(flat[k] == a[k]);
    } else {
        let j = k - a.len();
        assert(flat.take(k) =~= a + b.take(j));
        assert(step_ids(a + b.take(j)) =~= step_ids(a) + step_ids(b.take(j)));
        assert(prior + step_ids(flat.take(k)) =~= (prior + step_ids(a)) + step_ids(b.take(j)));
        assert(flat[k] == b[j]);
    }
}

pub open spec fn string_views(strings: Seq<String>) -> Seq<Seq<char>> {
    strings.map_values(|text: String| text@)
}

pub proof fn lemma_no_issue_concat(prior: Seq<Seq<char>>, a: Seq<Step>, b: Seq<Step>)
    requires
        has_no_issue(prior, a),
        has_no_issue(prior + step_ids(a), b),
    ensures
        has_no_issue(prior, a + b),
{
    assert forall|k: int| 0 <= k < (a + b).len() implies #[trigger] issue_at(prior, a + b, k) is None by {
        lemma_issue_split(prior, a, b, k);
    }
}

pub proof fn lemma_first_issue_in_prefix(prior: Seq<Seq<char>>, a: Seq<Step>, b: Seq<Step>, error: ValidationError)
    requires
        reports_first_issue(prior, a, error),
    ensures
        reports_first_issue(prior, a + b, error),
{
    let k = choose|k: int|
        0 <= k < a.len() && (forall|j: int| 0 <= j < k ==> #[trigger] issue_at(prior, a, j) is None)
            && issue_at(prior, a, k) == Some(error.reason) && error.step_id@ == a[k].id@;
    lemma_issue_split(prior, a, b, k);
    assert forall|j: int| 0 <= j < k implies #[trigger] issue_at(prior, a + b, j) is None by {
        lemma_issue_split(prior, a, b, j);
    }
    assert((a + b)[k] == a[k]);
}

pub proof fn lemma_first_issue_in_suffix(prior: Seq<Seq<char>>, a: Seq<Step>, b: Seq<Step>, error: ValidationError)
    requires
        has_no_issue(prior, a),
        reports_first_issue(prior + step_ids(a), b, error),
    ensures
        reports_first_issue(prior, a + b, error),
{
    let k = choose|k: int|
        0 <= k < b.len() && (forall|j: int| 0 <= j < k ==> #[trigger] issue_at(prior + step_ids(a), b, j) is None)
            && issue_at(prior + step_ids(a), b, k) == Some(error.reason) && error.step_id@ == b[k].id@;
    lemma_issue_split(prior, a, b, a.len() + k);
    assert forall|j: int| 0 <= j < a.len() + k implies #[trigger] issue_at(prior, a + b, j) is None by {
        lemma_issue_split(prior, a, b, j);
    }
    assert((a + b)[a.len() + k] == b[k]);
}

/// Whether an ID with the same text is among `seen`.
fn seen_contains(seen: &Vec<String>, id: &StepId) -> (found: bool)
    ensures
        found == string_views(seen@).contains(id@),
{
    let mut j: usize = 0;
    while j < seen.len()
        invariant
            j <= seen@.len(),
            forall|k: int| 0 <= k < j ==> seen@[k]@ != id@,
        decreases seen@.len() - j,
    {
        if seen[j] == id.0 {
            assert(string_views(seen@)[j as int] == id@);
            return true;
        }
        j = j + 1;
    }
    proof {
        if string_views(seen@).contains(id@) {
            let k = choose|k: int| 0 <= k < string_views(seen@).len() && string_views(seen@)[k] == id@;
            assert(seen@[k]@ == id@);
        }
    }
    false
}

/// The issue of a single step on its own.
fn check_local(step: &Step) -> (issue: Option<ValidationReason>)
    ensures
        issue == local_issue(*step),
{
    match &step.kind {
        StepKind::SendText(text) => if text.as_str().unicode_len() == 0 {
            Some(ValidationReason::EmptySend)
        } else {
            None
        },
        StepKind::SendBytes(bytes) => if bytes.len() == 0 {
            Some(ValidationReason::EmptySend)
        } else {
            None
        },
        StepKind::Wait(_) => None,
        StepKind::Read { max_bytes } => if *max_bytes == 0 || *max_bytes > MAX_READ_BYTES {
            Some(ValidationReason::InvalidReadLimit)
        } else {
            None
        },
        StepKind::ReadUntil { delimiter, max_bytes } => if *max_bytes == 0 || *max_bytes
            > MAX_READ_BYTES {
            Some(ValidationReason::InvalidReadLimit)
        } else if delimiter.len() == 0 {
            Some(ValidationReason::EmptyDelimiter)
        } else if delimiter.len() > *max_bytes {
            Some(ValidationReason::DelimiterExceedsReadLimit)
        } else {
            None
        },
        StepKind::Repeat { count, .. } => if *count == 0 {
            Some(ValidationReason::ZeroRepeatCount)
        } else {
            None
        },
    }
}

fn visit(steps: &[Step], seen: &mut Vec<String>) -> (result: Result<(), ValidationError>)
    ensures
        match result {
            Ok(()) => {
                &&& has_no_issue(string_views(old(seen)@), preorder(steps@))
                &&& string_views(final(seen)@) == string_views(old(seen)@) + step_ids(preorder(steps@))
            },
            Err(error) => reports_first_issue(string_views(old(seen)@), preorder(steps@), error),
        },
    decreases steps@,
{
    let ghost prior = string_views(seen@);
    let ghost all = steps@;
    let mut i: usize = 0;
    while i < steps.len()
        invariant
            all == steps@,
            i <= all.len(),
            prior == string_views(old(seen)@),
            has_no_issue(prior, preorder(all.take(i as int))),
            string_views(seen@) == prior + step_ids(preorder(all.take(i as int))),
        decreases all.len() - i,
    {
        let step = &steps[i];
        let ghost done = preorder(all.take(i as int));
        let ghost rest = preorder(all.skip(i + 1));
        let ghost nested = preorder(child_steps(*step));
        proof {
            lemma_preorder_single(*step);
            assert(all.take(i + 1) =~= all.take(i as int) + seq![*step]);
            lemma_preorder_append(all.take(i as int), seq![*step]);
            assert(all =~= all.take(i + 1) + all.skip(i + 1));
            lemma_preorder_append(all.take(i + 1), all.skip(i + 1));
            assert(preorder(all) =~= done + (seq![*step] + nested + rest));
            assert(preorder(all.take(i + 1)) =~= done + (seq![*step] + nested));
        }
        let duplicate = seen_contains(seen, &step.id);
        let issue = if duplicate {
            Some(ValidationReason::DuplicateId)
        } else {
            check_local(step)
        };
        let ghost tail = seq![*step] + nested + rest;
        proof {
            assert(tail.take(0) =~= Seq::<Step>::empty());
            assert(step_ids(Seq::<Step>::empty()) =~= Seq::<Seq<char>>::empty());
            assert(prior + step_ids(done) + step_ids(tail.take(0)) =~= prior + step_ids(done));
            assert(tail[0] == *step);
            assert(issue_at(prior + step_ids(done), tail, 0) == issue);
        }
        if let Some(reason) = issue {
            let error = ValidationError { step_id: step.id.clone(), reason };
            proof {
                assert(reports_first_issue(prior + step_ids(done), tail, error));
                lemma_first_issue_in_suffix(prior, done, tail, error);
            }
            return Err(error);
        }
        let ghost before_push = seen@;
        seen.push(step.id.0.clone());
        let ghost prior2 = string_views(seen@);
        proof {
            assert(string_views(seen@) =~= string_views(before_push).push(step.id@));
            assert(step_ids(seq![*step]) =~= seq![step.id@]);
            assert(step_ids(done + seq![*step]) =~= step_ids(done) + step_ids(seq![*step]));
            assert(prior2 =~= prior + step_ids(done + seq![*step]));
            assert(has_no_issue(prior + step_ids(done), seq![*step])) by {
                assert forall|k: int| 0 <= k < 1 implies #[trigger] issue_at(
                    prior + step_ids(done),
                    seq![*step],
                    k,
                ) is None by {
                    assert(seq![*step].take(0) =~= Seq::<Step>::empty());
                }
            }
            lemma_no_issue_concat(prior, done, seq![*step]);
        }
        match &step.kind {
            StepKind::Repeat { steps: children, .. } => {
                proof {
                    assert(decreases_to!(step.kind => step.kind->steps));
                    assert(decreases_to!(step.kind->steps => step.kind->steps@));
                }
                let nested_result = visit(children.as_slice(), seen);
                match nested_result {
                    Err(error) => {
                        proof {
                            assert(children@ == child_steps(*step));
                            lemma_first_issue_in_prefix(prior2, nested, rest, error);
                            assert(done + seq![*step] + (nested + rest) =~= done + tail);
                            lemma_first_issue_in_suffix(prior, done + seq![*step], nested + rest, error);
                        }
                        return Err(error);
                    },
                    Ok(()) => {
                        proof {
                            assert(children@ == child_steps(*step));
                            lemma_no_issue_concat(prior, done + seq![*step], nested);
                            assert(step_ids(done + seq![*step] + nested) =~= step_ids(done + seq![*step]) + step_ids(nested));
                            assert(done + seq![*step] + nested =~= preorder(all.take(i + 1)));
                        }
                    },
                }
            },
            _ => {
                proof {
                    assert(nested =~= Seq::<Step>::empty());
                    assert(done + seq![*step] =~= preorder(all.take(i + 1)));
                }
            },
        }
        i = i + 1;
    }
    assert(all.take(i as int) =~= all);
    Ok(())
}

/// Checks a step tree before any I/O: IDs are unique across the whole tree, sends are
/// nonempty, read limits lie in `1..=MAX_READ_BYTES`, delimiters are nonempty and fit
/// their read limit, and repeat counts are positive. The first problem in pre-order
/// is reported.
pub fn validate_steps(steps: &[Step]) -> (result: Result<(), ValidationError>)
    ensures
        match result {
            Ok(()) => steps_valid(steps@),
            Err(error) => reports_first_issue(Seq::empty(), preorder(steps@), error),
        },
{
    let mut seen: Vec<String> = Vec::new();
    assert(string_views(seen@) =~= Seq::<Seq<char>>::empty());
    visit(steps, &mut seen)
}

#[derive(Debug, Clone, PartialEq, Eq)]
pub struct StepResult {
    pub step_id: StepId,
    pub outcome: StepOutcome,
}

#[derive(Debug, Clone, PartialEq, Eq)]
pub enum StepOutcome {
    SendText { bytes_written: usize },
    SendBytes { bytes_written: usize },
    Wait { requested_duration: Duration },
    Read { bytes: Vec<u8> },
    ReadUntil { bytes: Vec<u8> },
    Repeat { completed_iterations: usize },
}

#[derive(Debug, Clone, Copy, PartialEq, Eq, Structural)]
pub enum Direction {
    Tx,
    Rx,
}

#[derive(Debug, Clone, PartialEq, Eq)]
pub struct TranscriptEntry {
    pub step_id: StepId,
    pub direction: Direction,
    pub bytes: Vec<u8>,
}

/// Logical I/O from completed steps, not an independent physical-wire capture.
#[derive(Debug, Clone, PartialEq, Eq)]
pub struct Transcript {
    pub entries: Vec<TranscriptEntry>,
}

#[derive(Debug, Clone, PartialEq, Eq)]
pub struct RunReport {
    /// Completed steps in completion order; repeat children retain their original IDs.
    pub step_results: Vec<StepResult>,
    pub transcript: Transcript,
}

impl Default for Transcript {
    fn default() -> (transcript: Self)
        ensures
            transcript.entries@ == Seq::<TranscriptEntry>::empty(),
    {
        Transcript { entries: Vec::new() }
    }
}

impl Default for RunReport {
    fn default() -> (report: Self)
        ensures
            report.step_results@ == Seq::<StepResult>::empty(),
            report.transcript.entries@ == Seq::<TranscriptEntry>::empty(),
    {
        RunReport { step_results: Vec::new(), transcript: Transcript::default() }
    }
}

/// A step failed while running; the report holds the work completed before it.
#[derive(Debug)]
pub struct ExecutionFailure {
    pub step_id: StepId,
    pub error: Error,
    pub report: RunReport,
}

#[derive(Debug)]
pub enum RunError {
    Validation(ValidationError),
    Execution(ExecutionFailure),
}

/// Performs the waiting that a wait step asks for.
///
/// An implementation that keeps a model of itself states, through `paused`, what a pause
/// does to that model; one that keeps none leaves it at `true`, which promises nothing.
pub trait Pause {
    /// A pause of `duration` may take `before` to `after`.
    open spec fn paused(before: &Self, duration: Duration, after: &Self) -> bool {
        true
    }

    fn pause(&mut self, duration: Duration)
        ensures
            Self::paused(old(self), duration, final(self)),
    ;
}

/// A pause that takes no time and keeps each requested duration, in order: a
/// deterministic stand-in for sleeping.
pub struct PauseLog {
    pub waits: Vec<Duration>,
}

impl PauseLog {
    pub fn new() -> (log: Self)
        ensures
            log.waits@ == Seq::<Duration>::empty(),
    {
        PauseLog { waits: Vec::new() }
    }
}

impl Pause for PauseLog {
    open spec fn paused(before: &Self, duration: Duration, after: &Self) -> bool {
        after.waits@ == before.waits@.push(duration)
    }

    fn pause(&mut self, duration: Duration) {
        self.waits.push(duration);
    }
}

/// `n` back-to-back copies of `body`.
pub open spec fn repeat_schedule(body: Seq<Step>, n: nat) -> Seq<Step>
    decreases n,
{
    if n == 0 {
        Seq::empty()
    } else {
        repeat_schedule(body, (n - 1) as nat) + body
    }
}

/// The order in which steps complete: a repeat's children, iteration after iteration,
/// complete before the repeat itself.
pub open spec fn schedule(steps: Seq<Step>) -> Seq<Step>
    decreases steps,
{
    if steps.len() == 0 {
        Seq::empty()
    } else {
        let own = match steps[0].kind {
            StepKind::Repeat { count, steps: children } => repeat_schedule(
                schedule(children@),
                count as nat,
            ) + seq![steps[0]],
            _ => seq![steps[0]],
        };
        own + schedule(steps.drop_first())
    }
}

/// Repeating `body` `n` times runs it whole, `n` times over: the `i`-th step run is step
/// `i mod len` of the body.
pub proof fn lemma_repeat_runs_body_in_order(body: Seq<Step>, n: nat)
    ensures
        repeat_schedule(body, n).len() == n * body.len(),
        forall|i: int|
            0 <= i < n * body.len() ==> #[trigger] repeat_schedule(body, n)[i] == body[i % body.len() as int],
    decreases n,
{
    if n > 0 {
        let m = (n - 1) as nat;
        lemma_repeat_runs_body_in_order(body, m);
        let len = body.len() as int;
        let before = repeat_schedule(body, m);
        let all = repeat_schedule(body, n);
        assert(m * len + len == n * len) by (nonlinear_arith)
            requires
                m + 1 == n,
        ;
        assert forall|i: int| 0 <= i < n * body.len() implies #[trigger] all[i] == body[i % len] by {
            if i < m * len {
                assert(all[i] == before[i]);
            } else {
                let j = i - m * len;
                assert(all[i] == body[j]);
                assert(i % len == j) by (nonlinear_arith)
                    requires
                        i == m * len + j,
                        0 <= j < len,
                        m >= 0,
                ;
            }
        }
    }
}

/// What a completed step reports, given its definition.
pub open spec fn outcome_fits(step: Step, outcome: StepOutcome) -> bool {
    match step.kind {
        StepKind::SendText(text) => outcome matches StepOutcome::SendText { bytes_written }
            && bytes_written == encode_utf8(text@).len(),
        StepKind::SendBytes(bytes) => outcome matches StepOutcome::SendBytes { bytes_written }
            && bytes_written == bytes@.len(),
        StepKind::Wait(duration) => outcome matches StepOutcome::Wait { requested_duration }
            && requested_duration == duration,
        StepKind::Read { max_bytes } => outcome matches StepOutcome::Read { bytes }
            && bytes@.len() <= max_bytes,
        StepKind::ReadUntil { delimiter, max_bytes } => outcome matches StepOutcome::ReadUntil {
            bytes,
        } && bytes@.len() <= max_bytes && ends_at_first_delimiter(bytes@, delimiter@),
        StepKind::Repeat { count, .. } => outcome matches StepOutcome::Repeat {
            completed_iterations,
        } && completed_iterations == count,
    }
}

pub open spec fn result_fits(step: Step, result: StepResult) -> bool {
    result.step_id@ == step.id@ && outcome_fits(step, result.outcome)
}

/// A transcript entry as plain values: step ID, direction, bytes.
pub open spec fn entry_view(entry: TranscriptEntry) -> (Seq<char>, Direction, Seq<u8>) {
    (entry.step_id@, entry.direction, entry.bytes@)
}

pub open spec fn transcript_view(transcript: Transcript) -> Seq<(Seq<char>, Direction, Seq<u8>)> {
    transcript.entries@.map_values(|entry: TranscriptEntry| entry_view(entry))
}

/// The transcript entries a completed step contributes: sends record the bytes
/// written, reads the bytes received, and other steps nothing.
pub open spec fn entries_for(step: Step, outcome: StepOutcome) -> Seq<(Seq<char>, Direction, Seq<u8>)> {
    match step.kind {
        StepKind::SendText(text) => seq![(step.id@, Direction::Tx, encode_utf8(text@))],
        StepKind::SendBytes(bytes) => seq![(step.id@, Direction::Tx, bytes@)],
        StepKind::Read { .. } | StepKind::ReadUntil { .. } => match outcome {
            StepOutcome::Read { bytes } => seq![(step.id@, Direction::Rx, bytes@)],
            StepOutcome::ReadUntil { bytes } => seq![(step.id@, Direction::Rx, bytes@)],
            _ => Seq::empty(),
        },
        _ => Seq::empty(),
    }
}

/// The transcript of the first `n` completed steps.
pub open spec fn expected_transcript(sched: Seq<Step>, results: Seq<StepResult>, n: nat) -> Seq<
    (Seq<char>, Direction, Seq<u8>),
>
    decreases n,
{
    if n == 0 {
        Seq::empty()
    } else {
        expected_transcript(sched, results, (n - 1) as nat) + entries_for(
            sched[n - 1],
            results[n - 1].outcome,
        )
    }
}

/// `report` records the completion of a prefix of `sched`, in order, with a fitting
/// outcome for each step and the transcript those outcomes imply.
pub open spec fn report_follows(sched: Seq<Step>, report: RunReport) -> bool {
    let results = report.step_results@;
    &&& results.len() <= sched.len()
    &&& forall|k: int| 0 <= k < results.len() ==> #[trigger] result_fits(sched[k], results[k])
    &&& transcript_view(report.transcript) == expected_transcript(sched, results, results.len())
}

/// How a step ended, as its I/O sees it: the outcome it reported, or the error it failed
/// with.
pub open spec fn io_bytes(ended: Result<StepOutcome, Error>) -> Result<Seq<u8>, Error> {
    match ended {
        Ok(StepOutcome::Read { bytes }) => Ok(bytes@),
        Ok(StepOutcome::ReadUntil { bytes }) => Ok(bytes@),
        Ok(_) => Ok(Seq::empty()),
        Err(error) => Err(error),
    }
}

pub open spec fn io_unit(ended: Result<StepOutcome, Error>) -> Result<(), Error> {
    match ended {
        Ok(_) => Ok(()),
        Err(error) => Err(error),
    }
}

/// The transport calls one step made, with `before` buffered when it began and `after`
/// when it ended, and what it did to the pauser: a wait pauses once for its duration,
/// every other step leaves the pauser alone; a send is one `write_all` of its bytes and, if that succeeded, one
/// `flush`; a read takes buffered bytes first and otherwise reads the transport once into
/// a buffer of its limit; a read-until reads as `read_until` does; waits and repeats make
/// no call of their own.
pub open spec fn step_io<T, P: Pause>(
    step: Step,
    ended: Result<StepOutcome, Error>,
    before: Seq<u8>,
    calls: Seq<IoCall<T>>,
    after: Seq<u8>,
    paused_from: P,
    paused_to: P,
) -> bool {
    &&& match step.kind {
        StepKind::Wait(duration) => P::paused(&paused_from, duration, &paused_to),
        _ => paused_to == paused_from,
    }
    &&& match step.kind {
        StepKind::SendText(text) => sent_then_flushed(calls, encode_utf8(text@), io_unit(ended))
            && after == before,
        StepKind::SendBytes(bytes) => sent_then_flushed(calls, bytes@, io_unit(ended)) && after
            == before,
        StepKind::Read { max_bytes } => if before.len() > 0 {
            let count = min_nat(max_bytes as int, before.len() as int);
            &&& calls.len() == 0
            &&& io_bytes(ended) == Ok::<Seq<u8>, Error>(before.take(count))
            &&& after == before.skip(count)
        } else {
            read_once(calls, max_bytes as nat, io_bytes(ended)) && after == Seq::<u8>::empty()
        },
        StepKind::ReadUntil { delimiter, max_bytes } => until_outcome(
            before,
            calls,
            delimiter@,
            max_bytes as int,
            io_bytes(ended),
            after,
        ),
        _ => calls.len() == 0 && after == before,
    }
}

/// The pauser when the `i`-th segment began.
pub open spec fn pauser_before<T, P>(start: P, segments: Seq<(Seq<IoCall<T>>, Seq<u8>, P)>, i: int) -> P {
    if i <= 0 {
        start
    } else {
        segments[i - 1].2
    }
}

/// The calls of all the segments, in order.
pub open spec fn segment_calls<T, P>(segments: Seq<(Seq<IoCall<T>>, Seq<u8>, P)>) -> Seq<IoCall<T>>
    decreases segments.len(),
{
    if segments.len() == 0 {
        Seq::empty()
    } else {
        segment_calls(segments.drop_last()) + segments.last().0
    }
}

/// What was buffered when the `i`-th segment began.
pub open spec fn buffered_before<T, P>(start: Seq<u8>, segments: Seq<(Seq<IoCall<T>>, Seq<u8>, P)>, i: int) -> Seq<u8> {
    if i <= 0 {
        start
    } else {
        segments[i - 1].1
    }
}

/// Steps of `sched`, taken in order, ended as `ended` says: they made exactly `calls` on
/// the transport, found `start` buffered and left `finish` buffered, and took the pauser
/// from `paused_start` to `paused_finish`; each step's segment is what that step does.
pub open spec fn runs_io<T, P: Pause>(
    sched: Seq<Step>,
    ended: Seq<Result<StepOutcome, Error>>,
    start: Seq<u8>,
    paused_start: P,
    segments: Seq<(Seq<IoCall<T>>, Seq<u8>, P)>,
    calls: Seq<IoCall<T>>,
    finish: Seq<u8>,
    paused_finish: P,
) -> bool {
    &&& segments.len() == ended.len()
    &&& ended.len() <= sched.len()
    &&& forall|i: int| 0 <= i < ended.len() ==> #[trigger] step_io(
        sched[i],
        ended[i],
        buffered_before(start, segments, i),
        segments[i].0,
        segments[i].1,
        pauser_before(paused_start, segments, i),
        segments[i].2,
    )
    &&& segment_calls(segments) == calls
    &&& buffered_before(start, segments, segments.len() as int) == finish
    &&& pauser_before(paused_start, segments, segments.len() as int) == paused_finish
}

/// The completed steps' outcomes, then the failing step's error if one failed.
pub open spec fn step_ends(results: Seq<StepResult>, failure: Option<Error>) -> Seq<Result<StepOutcome, Error>> {
    let done = results.map_values(|result: StepResult| Ok::<StepOutcome, Error>(result.outcome));
    match failure {
        Some(error) => done.push(Err(error)),
        None => done,
    }
}

proof fn lemma_runs_io_empty<T, P: Pause>(sched: Seq<Step>, start: Seq<u8>, paused: P)
    ensures
        runs_io(
            sched,
            Seq::<Result<StepOutcome, Error>>::empty(),
            start,
            paused,
            Seq::<(Seq<IoCall<T>>, Seq<u8>, P)>::empty(),
            Seq::<IoCall<T>>::empty(),
            start,
            paused,
        ),
{
}

proof fn lemma_runs_io_push<T, P: Pause>(
    sched: Seq<Step>,
    ended: Seq<Result<StepOutcome, Error>>,
    start: Seq<u8>,
    paused_start: P,
    segments: Seq<(Seq<IoCall<T>>, Seq<u8>, P)>,
    calls: Seq<IoCall<T>>,
    finish: Seq<u8>,
    paused_finish: P,
    end: Result<StepOutcome, Error>,
    more: Seq<IoCall<T>>,
    after: Seq<u8>,
    paused_after: P,
)
    requires
        runs_io(sched, ended, start, paused_start, segments, calls, finish, paused_finish),
        ended.len() < sched.len(),
        step_io(sched[ended.len() as int], end, finish, more, after, paused_finish, paused_after),
    ensures
        runs_io(
            sched,
            ended.push(end),
            start,
            paused_start,
            segments.push((more, after, paused_after)),
            calls + more,
            after,
            paused_after,
        ),
{
    let segs = segments.push((more, after, paused_after));
    assert(segs.drop_last() =~= segments);
    assert forall|i: int| 0 <= i < ended.len() + 1 implies #[trigger] step_io(
        sched[i],
        ended.push(end)[i],
        buffered_before(start, segs, i),
        segs[i].0,
        segs[i].1,
        pauser_before(paused_start, segs, i),
        segs[i].2,
    ) by {
        if i < ended.len() {
            assert(segs[i] == segments[i]);
            assert(buffered_before(start, segs, i) == buffered_before(start, segments, i));
            assert(pauser_before(paused_start, segs, i) == pauser_before(paused_start, segments, i));
            assert(step_io(
                sched[i],
                ended[i],
                buffered_before(start, segments, i),
                segments[i].0,
                segments[i].1,
                pauser_before(paused_start, segments, i),
                segments[i].2,
            ));
        } else {
            assert(buffered_before(start, segs, i) == finish);
            assert(pauser_before(paused_start, segs, i) == paused_finish);
        }
    }
}

proof fn lemma_runs_io_longer<T, P: Pause>(
    sched: Seq<Step>,
    more: Seq<Step>,
    ended: Seq<Result<StepOutcome, Error>>,
    start: Seq<u8>,
    paused_start: P,
    segments: Seq<(Seq<IoCall<T>>, Seq<u8>, P)>,
    calls: Seq<IoCall<T>>,
    finish: Seq<u8>,
    paused_finish: P,
)
    requires
        runs_io(sched, ended, start, paused_start, segments, calls, finish, paused_finish),
    ensures
        runs_io(sched + more, ended, start, paused_start, segments, calls, finish, paused_finish),
{
    assert forall|i: int| 0 <= i < ended.len() implies #[trigger] step_io(
        (sched + more)[i],
        ended[i],
        buffered_before(start, segments, i),
        segments[i].0,
        segments[i].1,
        pauser_before(paused_start, segments, i),
        segments[i].2,
    ) by {
        assert((sched + more)[i] == sched[i]);
        assert(step_io(
            sched[i],
            ended[i],
            buffered_before(start, segments, i),
            segments[i].0,
            segments[i].1,
            pauser_before(paused_start, segments, i),
            segments[i].2,
        ));
    }
}

proof fn lemma_segment_calls_concat<T, P>(
    a: Seq<(Seq<IoCall<T>>, Seq<u8>, P)>,
    b: Seq<(Seq<IoCall<T>>, Seq<u8>, P)>,
)
    ensures
        segment_calls(a + b) == segment_calls(a) + segment_calls(b),
    decreases b.len(),
{
    if b.len() == 0 {
        assert(a + b =~= a);
        assert(segment_calls(a) + Seq::<IoCall<T>>::empty() =~= segment_calls(a));
    } else {
        assert((a + b).drop_last() =~= a + b.drop_last());
        lemma_segment_calls_concat(a, b.drop_last());
        assert(segment_calls(a) + (segment_calls(b.drop_last()) + b.last().0) =~= (segment_calls(a)
            + segment_calls(b.drop_last())) + b.last().0);
    }
}

/// A run of `first` steps, fully completed, followed by a run of the next steps.
proof fn lemma_runs_io_concat<T, P: Pause>(
    s1: Seq<Step>,
    e1: Seq<Result<StepOutcome, Error>>,
    g1: Seq<(Seq<IoCall<T>>, Seq<u8>, P)>,
    c1: Seq<IoCall<T>>,
    s2: Seq<Step>,
    e2: Seq<Result<StepOutcome, Error>>,
    g2: Seq<(Seq<IoCall<T>>, Seq<u8>, P)>,
    c2: Seq<IoCall<T>>,
    start: Seq<u8>,
    middle: Seq<u8>,
    finish: Seq<u8>,
    p0: P,
    p1: P,
    p2: P,
)
    requires
        runs_io(s1, e1, start, p0, g1, c1, middle, p1),
        e1.len() == s1.len(),
        runs_io(s2, e2, middle, p1, g2, c2, finish, p2),
    ensures
        runs_io(s1 + s2, e1 + e2, start, p0, g1 + g2, c1 + c2, finish, p2),
{
    let g = g1 + g2;
    let n = g1.len() as int;
    lemma_segment_calls_concat(g1, g2);
    assert forall|i: int| 0 <= i < (e1 + e2).len() implies #[trigger] step_io(
        (s1 + s2)[i],
        (e1 + e2)[i],
        buffered_before(start, g, i),
        g[i].0,
        g[i].1,
        pauser_before(p0, g, i),
        g[i].2,
    ) by {
        if i < n {
            assert((s1 + s2)[i] == s1[i]);
            assert(g[i] == g1[i]);
            assert(buffered_before(start, g, i) == buffered_before(start, g1, i));
            assert(pauser_before(p0, g, i) == pauser_before(p0, g1, i));
            assert(step_io(
                s1[i],
                e1[i],
                buffered_before(start, g1, i),
                g1[i].0,
                g1[i].1,
                pauser_before(p0, g1, i),
                g1[i].2,
            ));
        } else {
            assert((s1 + s2)[i] == s2[i - n]);
            assert((e1 + e2)[i] == e2[i - n]);
            assert(g[i] == g2[i - n]);
            assert(buffered_before(start, g, i) == buffered_before(middle, g2, i - n));
            assert(pauser_before(p0, g, i) == pauser_before(p1, g2, i - n));
            assert(step_io(
                s2[i - n],
                e2[i - n],
                buffered_before(middle, g2, i - n),
                g2[i - n].0,
                g2[i - n].1,
                pauser_before(p1, g2, i - n),
                g2[i - n].2,
            ));
        }
    }
    if g2.len() == 0 {
        assert(g =~= g1);
    } else {
        assert(g[g.len() - 1] == g2[g2.len() - 1]);
    }
}

proof fn lemma_step_ends_push(results: Seq<StepResult>, d: int, result: StepResult)
    requires
        0 <= d <= results.len(),
    ensures
        step_ends(results.push(result).skip(d), None) == step_ends(results.skip(d), None).push(
            Ok::<StepOutcome, Error>(result.outcome),
        ),
{
    assert(results.push(result).skip(d) =~= results.skip(d).push(result));
    assert(step_ends(results.push(result).skip(d), None) =~= step_ends(results.skip(d), None).push(
        Ok::<StepOutcome, Error>(result.outcome),
    ));
}

proof fn lemma_step_ends_concat(a: Seq<StepResult>, b: Seq<StepResult>, failure: Option<Error>)
    ensures
        step_ends(a + b, failure) == step_ends(a, None) + step_ends(b, failure),
{
    let f = |result: StepResult| Ok::<StepOutcome, Error>(result.outcome);
    assert((a + b).map_values(f) =~= a.map_values(f) + b.map_values(f));
    match failure {
        Some(error) => {
            assert((a.map_values(f) + b.map_values(f)).push(Err(error)) =~= a.map_values(f) + b.map_values(f).push(Err(error)));
        },
        None => {},
    }
}

/// One more step, which made `more` calls and left `after` buffered, extends a run.
proof fn lemma_io_step<T, P: Pause>(
    sched: Seq<Step>,
    own: Seq<Step>,
    ended: Seq<Result<StepOutcome, Error>>,
    start: Seq<u8>,
    paused_start: P,
    segments: Seq<(Seq<IoCall<T>>, Seq<u8>, P)>,
    calls: Seq<IoCall<T>>,
    middle: Seq<u8>,
    paused_middle: P,
    step: Step,
    end: Result<StepOutcome, Error>,
    more: Seq<IoCall<T>>,
    after: Seq<u8>,
    paused_after: P,
)
    requires
        runs_io(sched, ended, start, paused_start, segments, calls, middle, paused_middle),
        ended.len() == sched.len(),
        own.len() >= 1,
        own[0] == step,
        step_io(step, end, middle, more, after, paused_middle, paused_after),
    ensures
        runs_io(
            sched + own,
            ended.push(end),
            start,
            paused_start,
            segments.push((more, after, paused_after)),
            calls + more,
            after,
            paused_after,
        ),
{
    lemma_runs_io_longer(sched, own, ended, start, paused_start, segments, calls, middle, paused_middle);
    assert((sched + own)[ended.len() as int] == step);
    lemma_runs_io_push(
        sched + own,
        ended,
        start,
        paused_start,
        segments,
        calls,
        middle,
        paused_middle,
        end,
        more,
        after,
        paused_after,
    );
}

/// The step that failed is an I/O step, and its error is one its operation can raise.
pub open spec fn failure_fits(step: Step, error: Error) -> bool {
    match step.kind {
        StepKind::SendText(_) | StepKind::SendBytes(_) => error is WriteFailed || error is FlushFailed,
        StepKind::Read { .. } => error is Timeout || error is ReadFailed,
        StepKind::ReadUntil { .. } => error is Timeout || error is ReadLimitExceeded
            || error is ReadFailed,
        _ => false,
    }
}

/// Every step of the tree passes its own checks.
pub open spec fn locally_valid(steps: Seq<Step>) -> bool {
    forall|k: int| 0 <= k < preorder(steps).len() ==> #[trigger] local_issue(preorder(steps)[k]) is None
}

pub proof fn lemma_schedule_append(a: Seq<Step>, b: Seq<Step>)
    ensures
        schedule(a + b) == schedule(a) + schedule(b),
    decreases a.len(),
{
    if a.len() == 0 {
        assert(a + b =~= b);
        assert(schedule(a) =~= Seq::<Step>::empty());
        assert(schedule(a) + schedule(b) =~= schedule(b));
    } else {
        assert((a + b)[0] == a[0]);
        assert((a + b).drop_first() =~= a.drop_first() + b);
        lemma_schedule_append(a.drop_first(), b);
        let own = match a[0].kind {
            StepKind::Repeat { count, steps: children } => repeat_schedule(
                schedule(children@),
                count as nat,
            ) + seq![a[0]],
            _ => seq![a[0]],
        };
        assert(schedule(a + b) =~= own + (schedule(a.drop_first()) + schedule(b)));
        assert(schedule(a) =~= own + schedule(a.drop_first()));
    }
}

pub proof fn lemma_schedule_single(step: Step)
    ensures
        schedule(seq![step]) == match step.kind {
            StepKind::Repeat { count, steps: children } => repeat_schedule(
                schedule(children@),
                count as nat,
            ) + seq![step],
            _ => seq![step],
        },
{
    let s = seq![step];
    assert(s.drop_first() =~= Seq::<Step>::empty());
    assert(schedule(s.drop_first()) =~= Seq::<Step>::empty());
    match step.kind {
        StepKind::Repeat { count, steps: children } => {
            assert(schedule(s) =~= repeat_schedule(schedule(children@), count as nat) + seq![step]);
        },
        _ => {
            assert(schedule(s) =~= seq![step]);
        },
    }
}

pub proof fn lemma_repeat_schedule_prefix(body: Seq<Step>, m: nat, n: nat)
    requires
        m <= n,
    ensures
        repeat_schedule(body, n).len() >= repeat_schedule(body, m).len(),
        repeat_schedule(body, n).take(repeat_schedule(body, m).len() as int) == repeat_schedule(body, m),
    decreases n - m,
{
    if m < n {
        lemma_repeat_schedule_prefix(body, m, (n - 1) as nat);
        let short = repeat_schedule(body, m);
        let mid = repeat_schedule(body, (n - 1) as nat);
        assert(repeat_schedule(body, n) == mid + body);
        assert((mid + body).take(short.len() as int) =~= mid.take(short.len() as int));
    } else {
        assert(repeat_schedule(body, n).take(repeat_schedule(body, m).len() as int) =~= repeat_schedule(body, m));
    }
}

/// The expected transcript of the first `n` steps depends only on those steps and results.
pub proof fn lemma_expected_transcript_prefix(
    s1: Seq<Step>,
    r1: Seq<StepResult>,
    s2: Seq<Step>,
    r2: Seq<StepResult>,
    n: nat,
)
    requires
        n <= s1.len(),
        n <= s2.len(),
        n <= r1.len(),
        n <= r2.len(),
        forall|k: int| 0 <= k < n ==> s1[k] == s2[k] && r1[k] == r2[k],
    ensures
        expected_transcript(s1, r1, n) == expected_transcript(s2, r2, n),
    decreases n,
{
    if n > 0 {
        lemma_expected_transcript_prefix(s1, r1, s2, r2, (n - 1) as nat);
    }
}

/// A report that follows a schedule also follows any extension of it.
pub proof fn lemma_report_follows_extend(sched: Seq<Step>, more: Seq<Step>, report: RunReport)
    requires
        report_follows(sched, report),
    ensures
        report_follows(sched + more, report),
{
    let results = report.step_results@;
    assert forall|k: int| 0 <= k < results.len() implies #[trigger] result_fits((sched + more)[k], results[k]) by {
        assert((sched + more)[k] == sched[k]);
        assert(result_fits(sched[k], results[k]));
    }
    lemma_expected_transcript_prefix(sched, results, sched + more, results, results.len());
}

/// Records a completed step: appends its result and its transcript entries.
proof fn lemma_record_step(
    sched: Seq<Step>,
    old_report: RunReport,
    new_report: RunReport,
    step: Step,
    result: StepResult,
)
    requires
        report_follows(sched, old_report),
        old_report.step_results@.len() == sched.len(),
        result_fits(step, result),
        new_report.step_results@ == old_report.step_results@.push(result),
        transcript_view(new_report.transcript) == transcript_view(old_report.transcript) + entries_for(
            step,
            result.outcome,
        ),
    ensures
        report_follows(sched.push(step), new_report),
        new_report.step_results@.len() == sched.push(step).len(),
{
    let results = new_report.step_results@;
    let n = old_report.step_results@.len();
    let sched2 = sched.push(step);
    assert forall|k: int| 0 <= k < results.len() implies #[trigger] result_fits(sched2[k], results[k]) by {
        if k < n {
            assert(sched2[k] == sched[k]);
            assert(results[k] == old_report.step_results@[k]);
            assert(result_fits(sched[k], old_report.step_results@[k]));
        }
    }
    lemma_expected_transcript_prefix(sched, old_report.step_results@, sched2, results, n as nat);
    assert(expected_transcript(sched2, results, (n + 1) as nat) == expected_transcript(
        sched2,
        results,
        n as nat,
    ) + entries_for(sched2[n as int], results[n as int].outcome));
}

/// Writes `bytes` and flushes, as every send does.
pub fn send_and_flush<T: Transport>(session: &mut SerialSession<T>, bytes: &[u8]) -> (result: Result<(), Error>)
    ensures
        final(session).buffered() == old(session).buffered(),
        final(session).made_calls(*old(session)),
        sent_then_flushed(final(session).calls_since(*old(session)), bytes@, result),
        result matches Err(error) ==> error is WriteFailed || error is FlushFailed,
        final(session).delivered() == old(session).delivered(),
        old(session).conserves() ==> final(session).conserves(),
{
    let ghost start = *session;
    match session.write_all(bytes) {
        Err(error) => Err(error),
        Ok(()) => {
            let ghost written = *session;
            let result = session.flush();
            proof {
                session.lemma_made_calls_trans(start, written);
                let calls = session.calls_since(start);
                assert(calls[0] == written.calls_since(start)[0]);
                assert(calls[1] == session.calls_since(written)[0]);
            }
            result
        },
    }
}

/// One bounded read of at most `max_bytes` bytes.
pub fn read_bounded<T: Transport>(session: &mut SerialSession<T>, max_bytes: usize) -> (result: Result<Vec<u8>, Error>)
    ensures
        final(session).made_calls(*old(session)),
        old(session).buffered().len() > 0 ==> final(session).io_calls() == old(session).io_calls(),
        old(session).buffered().len() == 0 && max_bytes > 0 ==> {
            &&& final(session).buffered() == Seq::<u8>::empty()
            &&& read_once(final(session).calls_since(*old(session)), max_bytes as nat, bytes_result(result))
        },
        result matches Ok(bytes) ==> bytes@.len() <= max_bytes,
        max_bytes == 0 ==> (result matches Ok(bytes) && bytes@.len() == 0 && *final(session)
            == *old(session)),
        old(session).buffered().len() > 0 ==> {
            let count = crate::transport::min_nat(max_bytes as int, old(session).buffered().len() as int);
            &&& result matches Ok(bytes) && bytes@ == old(session).buffered().take(count)
            &&& final(session).buffered() == old(session).buffered().skip(count)
            &&& final(session).spec_transport() == old(session).spec_transport()
        },
        result matches Err(error) ==> error is Timeout || error is ReadFailed,
        final(session).delivered() == old(session).delivered() + match result {
            Ok(bytes) => bytes@,
            Err(_) => Seq::<u8>::empty(),
        },
        old(session).conserves() ==> final(session).conserves(),
{
    let mut bytes: Vec<u8> = vec![0u8; max_bytes];
    let outcome = session.read(bytes.as_mut_slice());
    match outcome {
        Err(error) => Err(error),
        Ok(count) => {
            let ghost full = bytes@;
            bytes.truncate(count);
            proof {
                if old(session).buffered().len() > 0 {
                    let c = crate::transport::min_nat(max_bytes as int, old(session).buffered().len() as int);
                    assert(bytes@ =~= old(session).buffered().take(c));
                } else if max_bytes > 0 {
                    assert(bytes@ =~= full.take(count as int));
                }
            }
            Ok(bytes)
        },
    }
}

fn push_transcript(report: &mut RunReport, id: &StepId, direction: Direction, bytes: Vec<u8>)
    ensures
        final(report).step_results == old(report).step_results,
        transcript_view(final(report).transcript) == transcript_view(old(report).transcript).push(
            (id@, direction, bytes@),
        ),
{
    let entry = TranscriptEntry { step_id: id.clone(), direction, bytes };
    report.transcript.entries.push(entry);
    assert(transcript_view(report.transcript) =~= transcript_view(old(report).transcript).push(
        (id@, direction, bytes@),
    ));
}

/// Positions in the pre-order of `all` of the `i`-th step and of its children.
proof fn lemma_locally_valid_parts(all: Seq<Step>, i: int)
    requires
        locally_valid(all),
        0 <= i < all.len(),
    ensures
        local_issue(all[i]) is None,
        locally_valid(child_steps(all[i])),
{
    let step = all[i];
    let done = preorder(all.take(i));
    let nested = preorder(child_steps(step));
    let rest = preorder(all.skip(i + 1));
    lemma_preorder_single(step);
    assert(all.take(i + 1) =~= all.take(i) + seq![step]);
    lemma_preorder_append(all.take(i), seq![step]);
    assert(all =~= all.take(i + 1) + all.skip(i + 1));
    lemma_preorder_append(all.take(i + 1), all.skip(i + 1));
    assert(preorder(all) =~= done + seq![step] + nested + rest);
    assert(preorder(all)[done.len() as int] == step);
    assert(local_issue(preorder(all)[done.len() as int]) is None);
    assert forall|k: int| 0 <= k < nested.len() implies #[trigger] local_issue(nested[k]) is None by {
        assert(preorder(all)[done.len() + 1 + k] == nested[k]);
        assert(local_issue(preorder(all)[done.len() + 1 + k]) is None);
    }
}

/// The session went from `before` to `after`, and the pauser from `paused_before` to
/// `paused_after`, by running the steps of `sched` in order:
/// those in `results` completed, and, when `failure` holds an error, the next one failed
/// with it; every transport call made is one of these steps' own calls.
pub open spec fn ran_on<T: Transport, P: Pause>(
    sched: Seq<Step>,
    results: Seq<StepResult>,
    failure: Option<Error>,
    before: SerialSession<T>,
    after: SerialSession<T>,
    paused_before: P,
    paused_after: P,
) -> bool {
    &&& after.made_calls(before)
    &&& exists|segments: Seq<(Seq<IoCall<T>>, Seq<u8>, P)>|
        runs_io(
            sched,
            step_ends(results, failure),
            before.buffered(),
            paused_before,
            segments,
            after.calls_since(before),
            after.buffered(),
            paused_after,
        )
}

/// The error a run stopped with, if it stopped.
pub open spec fn failed_with(result: Result<(), (StepId, Error)>) -> Option<Error> {
    match result {
        Ok(_) => None,
        Err((_, error)) => Some(error),
    }
}

/// A step that failed after the steps before it ran extends their run to the whole
/// schedule with its error.
proof fn lemma_io_fail<T, P: Pause>(
    whole: Seq<Step>,
    cur: Seq<Step>,
    tail: Seq<Step>,
    ended: Seq<Result<StepOutcome, Error>>,
    start: Seq<u8>,
    paused_start: P,
    segments: Seq<(Seq<IoCall<T>>, Seq<u8>, P)>,
    calls: Seq<IoCall<T>>,
    middle: Seq<u8>,
    paused_middle: P,
    step: Step,
    error: Error,
    more: Seq<IoCall<T>>,
    after: Seq<u8>,
)
    requires
        runs_io(cur, ended, start, paused_start, segments, calls, middle, paused_middle),
        ended.len() == cur.len(),
        tail.len() >= 1,
        tail[0] == step,
        whole == cur + tail,
        step_io(step, Err(error), middle, more, after, paused_middle, paused_middle),
    ensures
        runs_io(
            whole,
            ended.push(Err(error)),
            start,
            paused_start,
            segments.push((more, after, paused_middle)),
            calls + more,
            after,
            paused_middle,
        ),
{
    lemma_io_step(
        cur,
        tail,
        ended,
        start,
        paused_start,
        segments,
        calls,
        middle,
        paused_middle,
        step,
        Err(error),
        more,
        after,
        paused_middle,
    );
}

#[verifier::spinoff_prover]
#[verifier::rlimit(100)]
fn execute<T: Transport, P: Pause>(
    session: &mut SerialSession<T>,
    steps: &[Step],
    report: &mut RunReport,
    pause: &mut P,
    Ghost(done): Ghost<Seq<Step>>,
) -> (result: Result<(), (StepId, Error)>)
    requires
        locally_valid(steps@),
        report_follows(done, *old(report)),
        old(report).step_results@.len() == done.len(),
    ensures
        report_follows(done + schedule(steps@), *final(report)),
        match result {
            Ok(()) => final(report).step_results@.len() == (done + schedule(steps@)).len(),
            Err((id, error)) => {
                let n = final(report).step_results@.len();
                &&& done.len() <= n < done.len() + schedule(steps@).len()
                &&& id@ == (done + schedule(steps@))[n as int].id@
                &&& failure_fits((done + schedule(steps@))[n as int], error)
            },
        },
        final(report).step_results@.take(done.len() as int) == old(report).step_results@,
        final(session).made_calls(*old(session)),
        old(session).conserves() ==> final(session).conserves(),
        exists|segments: Seq<(Seq<IoCall<T>>, Seq<u8>, P)>|
            runs_io(
                schedule(steps@),
                step_ends(final(report).step_results@.skip(done.len() as int), failed_with(result)),
                old(session).buffered(),
                *old(pause),
                segments,
                final(session).calls_since(*old(session)),
                final(session).buffered(),
                *final(pause),
            ),
    decreases steps@,
{
    let ghost all = steps@;
    let ghost d = done.len() as int;
    let ghost start = *session;
    let ghost pstart = *pause;
    let ghost mut segs = Seq::<(Seq<IoCall<T>>, Seq<u8>, P)>::empty();
    let mut i: usize = 0;
    assert(all.take(0) =~= Seq::<Step>::empty());
    assert(schedule(Seq::<Step>::empty()) =~= Seq::<Step>::empty());
    assert(done + schedule(all.take(0)) =~= done);
    proof {
        assert(session.io_calls().skip(session.io_calls().len() as int) =~= Seq::<IoCall<T>>::empty());
        assert(session.io_calls() =~= session.io_calls() + Seq::<IoCall<T>>::empty());
        assert(report.step_results@.take(d) =~= report.step_results@);
        assert(report.step_results@.skip(d) =~= Seq::<StepResult>::empty());
        assert(step_ends(Seq::<StepResult>::empty(), None) =~= Seq::<Result<StepOutcome, Error>>::empty());
        lemma_runs_io_empty::<T, P>(schedule(all.take(0)), session.buffered(), *pause);
    }
    while i < steps.len()
        invariant
            all == steps@,
            i <= all.len(),
            locally_valid(all),
            report_follows(done + schedule(all.take(i as int)), *report),
            report.step_results@.len() == (done + schedule(all.take(i as int))).len(),
            d == done.len(),
            old(report).step_results@.len() == d,
            report.step_results@.take(d) == old(report).step_results@,
            start == *old(session),
            pstart == *old(pause),
            session.made_calls(start),
            start.conserves() ==> session.conserves(),
            runs_io(
                schedule(all.take(i as int)),
                step_ends(report.step_results@.skip(d), None),
                start.buffered(),
                pstart,
                segs,
                session.calls_since(start),
                session.buffered(),
                *pause,
            ),
        decreases all.len() - i,
    {
        let step = &steps[i];
        let ghost cur = done + schedule(all.take(i as int));
        let ghost rel = schedule(all.take(i as int));
        let ghost own = schedule(seq![*step]);
        let ghost rest = schedule(all.skip(i + 1));
        proof {
            assert(all.take(i + 1) =~= all.take(i as int) + seq![*step]);
            lemma_schedule_append(all.take(i as int), seq![*step]);
            assert(all =~= all.take(i + 1) + all.skip(i + 1));
            lemma_schedule_append(all.take(i + 1), all.skip(i + 1));
            lemma_schedule_single(*step);
            assert(done + schedule(all) =~= cur + own + rest);
            assert(done + schedule(all.take(i + 1)) =~= cur + own);
            assert(schedule(all.take(i + 1)) == rel + own);
            assert(schedule(all) =~= rel + (own + rest));
            lemma_locally_valid_parts(all, i as int);
        }
        let ghost before = *report;
        let ghost r0 = report.step_results@;
        let ghost s0 = *session;
        let ghost p0 = *pause;
        let ghost ended0 = step_ends(r0.skip(d), None);
        proof {
            assert(ended0.len() == rel.len());
        }
        match &step.kind {
            StepKind::SendText(text) => {
                let bytes = text.as_str().as_bytes();
                match send_and_flush(session, bytes) {
                    Err(error) => {
                        proof {
                            assert(own =~= seq![*step]);
                            assert((own + rest)[0] == *step);
                            assert((cur + own + rest)[cur.len() as int] == *step);
                            lemma_report_follows_extend(cur, own + rest, *report);
                            assert(cur + (own + rest) =~= cur + own + rest);
                            session.lemma_made_calls_trans(start, s0);
                            lemma_io_fail(schedule(all), rel, own + rest, ended0, start.buffered(), pstart, segs, s0.calls_since(start), s0.buffered(), p0, *step, error, session.calls_since(s0), session.buffered());
                            assert(report.step_results@ == r0);
                            assert(step_ends(r0.skip(d), Some(error)) == ended0.push(Err(error)));
                            assert(runs_io(schedule(all), step_ends(report.step_results@.skip(d), Some(error)), start.buffered(), pstart, segs.push((session.calls_since(s0), session.buffered(), p0)), session.calls_since(start), session.buffered(), *pause));
                        }
                        return Err((step.id.clone(), error));
                    },
                    Ok(()) => {},
                }
                let ghost s1 = *session;
                let written = bytes.len();
                push_transcript(report, &step.id, Direction::Tx, bytes_to_vec(bytes));
                let result = StepResult {
                    step_id: step.id.clone(),
                    outcome: StepOutcome::SendText { bytes_written: written },
                };
                let ghost middle = *report;
                report.step_results.push(result);
                proof {
                    assert(own =~= seq![*step]);
                    assert(transcript_view(report.transcript) == transcript_view(before.transcript)
                        + entries_for(*step, result.outcome));
                    lemma_record_step(cur, before, *report, *step, result);
                    assert(cur.push(*step) =~= cur + own);
                    session.lemma_made_calls_trans(start, s0);
                    lemma_step_ends_push(r0, d, result);
                    lemma_io_step(rel, own, ended0, start.buffered(), pstart, segs, s0.calls_since(start), s0.buffered(), p0, *step, Ok(result.outcome), session.calls_since(s0), session.buffered(), p0);
                    segs = segs.push((session.calls_since(s0), session.buffered(), p0));
                    assert(report.step_results@.take(d) =~= r0.take(d));
                }
            },
            StepKind::SendBytes(bytes) => {
                match send_and_flush(session, bytes.as_slice()) {
                    Err(error) => {
                        proof {
                            assert(own =~= seq![*step]);
                            assert((own + rest)[0] == *step);
                            assert((cur + own + rest)[cur.len() as int] == *step);
                            lemma_report_follows_extend(cur, own + rest, *report);
                            assert(cur + (own + rest) =~= cur + own + rest);
                            session.lemma_made_calls_trans(start, s0);
                            lemma_io_fail(schedule(all), rel, own + rest, ended0, start.buffered(), pstart, segs, s0.calls_since(start), s0.buffered(), p0, *step, error, session.calls_since(s0), session.buffered());
                            assert(report.step_results@ == r0);
                            assert(step_ends(r0.skip(d), Some(error)) == ended0.push(Err(error)));
                            assert(runs_io(schedule(all), step_ends(report.step_results@.skip(d), Some(error)), start.buffered(), pstart, segs.push((session.calls_since(s0), session.buffered(), p0)), session.calls_since(start), session.buffered(), *pause));
                        }
                        return Err((step.id.clone(), error));
                    },
                    Ok(()) => {},
                }
                push_transcript(report, &step.id, Direction::Tx, bytes_to_vec(bytes.as_slice()));
                let result = StepResult {
                    step_id: step.id.clone(),
                    outcome: StepOutcome::SendBytes { bytes_written: bytes.len() },
                };
                report.step_results.push(result);
                proof {
                    assert(own =~= seq![*step]);
                    assert(transcript_view(report.transcript) == transcript_view(before.transcript)
                        + entries_for(*step, result.outcome));
                    lemma_record_step(cur, before, *report, *step, result);
                    assert(cur.push(*step) =~= cur + own);
                    session.lemma_made_calls_trans(start, s0);
                    lemma_step_ends_push(r0, d, result);
                    lemma_io_step(rel, own, ended0, start.buffered(), pstart, segs, s0.calls_since(start), s0.buffered(), p0, *step, Ok(result.outcome), session.calls_since(s0), session.buffered(), p0);
                    segs = segs.push((session.calls_since(s0), session.buffered(), p0));
                    assert(report.step_results@.take(d) =~= r0.take(d));
                }
            },
            StepKind::Wait(duration) => {
                pause.pause(*duration);
                let result = StepResult {
                    step_id: step.id.clone(),
                    outcome: StepOutcome::Wait { requested_duration: *duration },
                };
                report.step_results.push(result);
                proof {
                    assert(own =~= seq![*step]);
                    assert(entries_for(*step, result.outcome) =~= Seq::empty());
                    assert(transcript_view(report.transcript) =~= transcript_view(before.transcript)
                        + entries_for(*step, result.outcome));
                    lemma_record_step(cur, before, *report, *step, result);
                    assert(cur.push(*step) =~= cur + own);
                    let none = Seq::<IoCall<T>>::empty();
                    assert(s0.calls_since(start) + none =~= s0.calls_since(start));
                    lemma_step_ends_push(r0, d, result);
                    lemma_io_step(rel, own, ended0, start.buffered(), pstart, segs, s0.calls_since(start), s0.buffered(), p0, *step, Ok(result.outcome), none, s0.buffered(), *pause);
                    segs = segs.push((none, s0.buffered(), *pause));
                    assert(report.step_results@.take(d) =~= r0.take(d));
                }
            },
            StepKind::Read { max_bytes } => {
                match read_bounded(session, *max_bytes) {
                    Err(error) => {
                        proof {
                            assert(own =~= seq![*step]);
                            assert((own + rest)[0] == *step);
                            assert((cur + own + rest)[cur.len() as int] == *step);
                            lemma_report_follows_extend(cur, own + rest, *report);
                            assert(cur + (own + rest) =~= cur + own + rest);
                            session.lemma_made_calls_trans(start, s0);
                            lemma_io_fail(schedule(all), rel, own + rest, ended0, start.buffered(), pstart, segs, s0.calls_since(start), s0.buffered(), p0, *step, error, session.calls_since(s0), session.buffered());
                            assert(report.step_results@ == r0);
                            assert(step_ends(r0.skip(d), Some(error)) == ended0.push(Err(error)));
                            assert(runs_io(schedule(all), step_ends(report.step_results@.skip(d), Some(error)), start.buffered(), pstart, segs.push((session.calls_since(s0), session.buffered(), p0)), session.calls_since(start), session.buffered(), *pause));
                        }
                        return Err((step.id.clone(), error));
                    },
                    Ok(bytes) => {
                        let ghost got = bytes@;
                        push_transcript(report, &step.id, Direction::Rx, bytes_to_vec(bytes.as_slice()));
                        let result = StepResult {
                            step_id: step.id.clone(),
                            outcome: StepOutcome::Read { bytes },
                        };
                        report.step_results.push(result);
                        proof {
                            assert(own =~= seq![*step]);
                            assert(transcript_view(report.transcript) == transcript_view(before.transcript)
                                + entries_for(*step, result.outcome));
                            lemma_record_step(cur, before, *report, *step, result);
                            assert(cur.push(*step) =~= cur + own);
                            if s0.buffered().len() > 0 {
                                assert(session.calls_since(s0) =~= Seq::<IoCall<T>>::empty());
                            }
                            session.lemma_made_calls_trans(start, s0);
                            lemma_step_ends_push(r0, d, result);
                            lemma_io_step(rel, own, ended0, start.buffered(), pstart, segs, s0.calls_since(start), s0.buffered(), p0, *step, Ok(result.outcome), session.calls_since(s0), session.buffered(), p0);
                            segs = segs.push((session.calls_since(s0), session.buffered(), p0));
                            assert(report.step_results@.take(d) =~= r0.take(d));
                        }
                    },
                }
            },
            StepKind::ReadUntil { delimiter, max_bytes } => {
                match session.read_until(delimiter.as_slice(), *max_bytes) {
                    Err(error) => {
                        proof {
                            assert(own =~= seq![*step]);
                            assert((own + rest)[0] == *step);
                            assert((cur + own + rest)[cur.len() as int] == *step);
                            lemma_report_follows_extend(cur, own + rest, *report);
                            assert(cur + (own + rest) =~= cur + own + rest);
                            session.lemma_made_calls_trans(start, s0);
                            lemma_io_fail(schedule(all), rel, own + rest, ended0, start.buffered(), pstart, segs, s0.calls_since(start), s0.buffered(), p0, *step, error, session.calls_since(s0), session.buffered());
                            assert(report.step_results@ == r0);
                            assert(step_ends(r0.skip(d), Some(error)) == ended0.push(Err(error)));
                            assert(runs_io(schedule(all), step_ends(report.step_results@.skip(d), Some(error)), start.buffered(), pstart, segs.push((session.calls_since(s0), session.buffered(), p0)), session.calls_since(start), session.buffered(), *pause));
                        }
                        return Err((step.id.clone(), error));
                    },
                    Ok(bytes) => {
                        push_transcript(report, &step.id, Direction::Rx, bytes_to_vec(bytes.as_slice()));
                        let result = StepResult {
                            step_id: step.id.clone(),
                            outcome: StepOutcome::ReadUntil { bytes },
                        };
                        report.step_results.push(result);
                        proof {
                            assert(own =~= seq![*step]);
                            assert(transcript_view(report.transcript) == transcript_view(before.transcript)
                                + entries_for(*step, result.outcome));
                            lemma_record_step(cur, before, *report, *step, result);
                            assert(cur.push(*step) =~= cur + own);
                            session.lemma_made_calls_trans(start, s0);
                            lemma_step_ends_push(r0, d, result);
                            lemma_io_step(rel, own, ended0, start.buffered(), pstart, segs, s0.calls_since(start), s0.buffered(), p0, *step, Ok(result.outcome), session.calls_since(s0), session.buffered(), p0);
                            segs = segs.push((session.calls_since(s0), session.buffered(), p0));
                            assert(report.step_results@.take(d) =~= r0.take(d));
                        }
                    },
                }
            },
            StepKind::Repeat { count, steps: children } => {
                let ghost body = schedule(children@);
                let mut iteration: usize = 0;
                assert(cur + repeat_schedule(body, 0) =~= cur);
                assert(rel + repeat_schedule(body, 0) =~= rel);
                while iteration < *count
                    invariant
                        iteration <= *count,
                        body == schedule(children@),
                        locally_valid(children@),
                        children@ == child_steps(all[i as int]),
                        all == steps@,
                        i < all.len(),
                        *step == all[i as int],
                        step.kind is Repeat,
                        step.kind->steps == *children,
                        own == repeat_schedule(body, *count as nat) + seq![*step],
                        cur == done + schedule(all.take(i as int)),
                        rel == schedule(all.take(i as int)),
                        cur == done + rel,
                        done + schedule(all) == cur + own + rest,
                        schedule(all) == rel + (own + rest),
                        report_follows(cur + repeat_schedule(body, iteration as nat), *report),
                        report.step_results@.len() == (cur + repeat_schedule(body, iteration as nat)).len(),
                        d == done.len(),
                        old(report).step_results@.len() == d,
                        report.step_results@.take(d) == old(report).step_results@,
                        start == *old(session),
                        pstart == *old(pause),
                        session.made_calls(start),
                        start.conserves() ==> session.conserves(),
                        runs_io(
                            rel + repeat_schedule(body, iteration as nat),
                            step_ends(report.step_results@.skip(d), None),
                            start.buffered(),
                            pstart,
                            segs,
                            session.calls_since(start),
                            session.buffered(),
                            *pause,
                        ),
                    decreases *count - iteration,
                {
                    proof {
                        assert(decreases_to!(steps@ => steps@[i as int]));
                        assert(decreases_to!(steps@[i as int] => steps@[i as int].kind));
                        assert(decreases_to!(step.kind => step.kind->steps));
                        assert(decreases_to!(step.kind->steps => step.kind->steps@));
                    }
                    let ghost prefix = cur + repeat_schedule(body, iteration as nat);
                    let ghost rprefix = rel + repeat_schedule(body, iteration as nat);
                    let ghost r1 = report.step_results@;
                    let ghost s1 = *session;
                    let ghost p1 = *pause;
                    let outcome = execute(session, children.as_slice(), report, pause, Ghost(prefix));
                    proof {
                        lemma_repeat_schedule_prefix(body, (iteration + 1) as nat, *count as nat);
                        let longer = repeat_schedule(body, *count as nat);
                        let shorter = repeat_schedule(body, (iteration + 1) as nat);
                        assert(shorter =~= repeat_schedule(body, iteration as nat) + body);
                        assert(longer =~= shorter + longer.skip(shorter.len() as int));
                        assert(prefix + body =~= cur + shorter);
                        assert(rprefix + body =~= rel + shorter);
                        let failed = failed_with(outcome);
                        let g2 = choose|g2: Seq<(Seq<IoCall<T>>, Seq<u8>, P)>| runs_io(
                            body,
                            step_ends(report.step_results@.skip(prefix.len() as int), failed),
                            s1.buffered(),
                            p1,
                            g2,
                            session.calls_since(s1),
                            session.buffered(),
                            *pause,
                        );
                        session.lemma_made_calls_trans(start, s1);
                        let rs = report.step_results@;
                        assert(rs.take(r1.len() as int) == r1);
                        assert(rs.skip(d) =~= r1.skip(d) + rs.skip(r1.len() as int));
                        lemma_step_ends_concat(r1.skip(d), rs.skip(r1.len() as int), failed);
                        lemma_runs_io_concat(
                            rprefix,
                            step_ends(r1.skip(d), None),
                            segs,
                            s1.calls_since(start),
                            body,
                            step_ends(rs.skip(r1.len() as int), failed),
                            g2,
                            session.calls_since(s1),
                            start.buffered(),
                            s1.buffered(),
                            session.buffered(),
                            pstart,
                            p1,
                            *pause,
                        );
                        segs = segs + g2;
                        assert(rs.take(d) =~= r1.take(d));
                    }
                    match outcome {
                        Err(failure) => {
                            proof {
                                let longer = repeat_schedule(body, *count as nat);
                                let shorter = repeat_schedule(body, (iteration + 1) as nat);
                                let extra = longer.skip(shorter.len() as int) + seq![*step] + rest;
                                lemma_report_follows_extend(prefix + body, extra, *report);
                                assert(prefix + body + extra =~= cur + own + rest);
                                let n = report.step_results@.len();
                                assert((prefix + body + extra)[n as int] == (prefix + body)[n as int]);
                                assert(rprefix + body + extra =~= rel + own + rest);
                                assert(schedule(all) =~= rprefix + body + extra);
                                lemma_runs_io_longer(
                                    rprefix + body,
                                    extra,
                                    step_ends(report.step_results@.skip(d), Some(failure.1)),
                                    start.buffered(),
                                    pstart,
                                    segs,
                                    session.calls_since(start),
                                    session.buffered(),
                                    *pause,
                                );
                            }
                            return Err(failure);
                        },
                        Ok(()) => {},
                    }
                    iteration = iteration + 1;
                }
                let ghost middle = *report;
                let ghost r2 = report.step_results@;
                let ghost s2 = *session;
                let result = StepResult {
                    step_id: step.id.clone(),
                    outcome: StepOutcome::Repeat { completed_iterations: *count },
                };
                report.step_results.push(result);
                proof {
                    assert(entries_for(*step, result.outcome) =~= Seq::empty());
                    assert(transcript_view(report.transcript) =~= transcript_view(middle.transcript)
                        + entries_for(*step, result.outcome));
                    lemma_record_step(cur + repeat_schedule(body, *count as nat), middle, *report, *step, result);
                    assert((cur + repeat_schedule(body, *count as nat)).push(*step) =~= cur + own);
                    let none = Seq::<IoCall<T>>::empty();
                    let rsched = rel + repeat_schedule(body, *count as nat);
                    assert(s2.calls_since(start) + none =~= s2.calls_since(start));
                    lemma_step_ends_push(r2, d, result);
                    lemma_io_step(rsched, seq![*step], step_ends(r2.skip(d), None), start.buffered(), pstart, segs, s2.calls_since(start), s2.buffered(), *pause, *step, Ok(result.outcome), none, s2.buffered(), *pause);
                    segs = segs.push((none, s2.buffered(), *pause));
                    assert(rsched + seq![*step] =~= rel + own);
                    assert(report.step_results@.take(d) =~= r2.take(d));
                }
            },
        }
        i = i + 1;
    }
    assert(all.take(i as int) =~= all);
    Ok(())
}

/// Validates the whole tree, then runs its steps in order on `session`. Nothing is
/// sent or read when validation fails; execution stops at the first failing step.
pub fn run_steps<T: Transport, P: Pause>(session: &mut SerialSession<T>, steps: &[Step], pause: &mut P) -> (result: Result<RunReport, RunError>)
    ensures
        final(session).made_calls(*old(session)),
        old(session).conserves() ==> final(session).conserves(),
        match result {
            Ok(report) => {
                &&& steps_valid(steps@)
                &&& report_follows(schedule(steps@), report)
                &&& report.step_results@.len() == schedule(steps@).len()
                &&& ran_on(schedule(steps@), report.step_results@, None, *old(session), *final(session), *old(pause), *final(pause))
            },
            Err(RunError::Validation(error)) => {
                &&& reports_first_issue(Seq::empty(), preorder(steps@), error)
                &&& *final(session) == *old(session)
                &&& *final(pause) == *old(pause)
            },
            Err(RunError::Execution(failure)) => {
                let n = failure.report.step_results@.len();
                &&& steps_valid(steps@)
                &&& report_follows(schedule(steps@), failure.report)
                &&& n < schedule(steps@).len()
                &&& failure.step_id@ == schedule(steps@)[n as int].id@
                &&& failure_fits(schedule(steps@)[n as int], failure.error)
                &&& ran_on(
                    schedule(steps@),
                    failure.report.step_results@,
                    Some(failure.error),
                    *old(session),
                    *final(session),
                    *old(pause),
                    *final(pause),
                )
            },
        },
{
    match validate_steps(steps) {
        Err(error) => {
            proof {
                session.lemma_made_no_calls();
            }
            return Err(RunError::Validation(error));
        },
        Ok(()) => {},
    }
    proof {
        let flat = preorder(steps@);
        assert forall|k: int| 0 <= k < flat.len() implies #[trigger] local_issue(flat[k]) is None by {
            assert(issue_at(Seq::empty(), flat, k) is None);
        }
    }
    let mut report = RunReport::default();
    proof {
        assert(transcript_view(report.transcript) =~= Seq::empty());
        assert(expected_transcript(Seq::empty(), report.step_results@, 0) =~= Seq::empty());
    }
    let outcome = execute(session, steps, &mut report, pause, Ghost(Seq::empty()));
    proof {
        assert(Seq::<Step>::empty() + schedule(steps@) =~= schedule(steps@));
        assert(report.step_results@.skip(0) =~= report.step_results@);
    }
    match outcome {
        Ok(()) => Ok(report),
        Err((step_id, error)) => Err(RunError::Execution(ExecutionFailure { step_id, error, report })),
    }
}

/// Runs step trees on a session.
pub struct StepRunner<'a, T: Transport> {
    /// The session the runner borrows for its run.
    pub session: &'a mut SerialSession<T>,
}

impl<'a, T: Transport> StepRunner<'a, T> {
    /// The session the runner drives.
    pub closed spec fn session(&self) -> SerialSession<T> {
        *self.session
    }

    pub fn new(session: &'a mut SerialSession<T>) -> (runner: Self)
        ensures
            runner.session() == *old(session),
            *final(session) == *final(runner.session),
    {
        StepRunner { session }
    }

    /// Validates the whole tree, then runs its steps in order, waiting through `pause`.
    /// Nothing is sent or read when validation fails; execution stops at the first
    /// failing step, and the report then holds the work completed before it.
    pub fn run<P: Pause>(&mut self, steps: &[Step], pause: &mut P) -> (result: Result<RunReport, RunError>)
        ensures
            *final(final(self).session) == *final(old(self).session),
            final(self).session().made_calls(old(self).session()),
            old(self).session().conserves() ==> final(self).session().conserves(),
            match result {
                Ok(report) => {
                    &&& steps_valid(steps@)
                    &&& report_follows(schedule(steps@), report)
                    &&& report.step_results@.len() == schedule(steps@).len()
                    &&& ran_on(schedule(steps@), report.step_results@, None, old(self).session(), final(self).session(), *old(pause), *final(pause))
                },
                Err(RunError::Validation(error)) => {
                    &&& reports_first_issue(Seq::empty(), preorder(steps@), error)
                    &&& final(self).session() == old(self).session()
                    &&& *final(pause) == *old(pause)
                },
                Err(RunError::Execution(failure)) => {
                    let n = failure.report.step_results@.len();
                    &&& steps_valid(steps@)
                    &&& report_follows(schedule(steps@), failure.report)
                    &&& n < schedule(steps@).len()
                    &&& failure.step_id@ == schedule(steps@)[n as int].id@
                    &&& failure_fits(schedule(steps@)[n as int], failure.error)
                    &&& ran_on(
                        schedule(steps@),
                        failure.report.step_results@,
                        Some(failure.error),
                        old(self).session(),
                        final(self).session(),
                        *old(pause),
                        *final(pause),
                    )
                },
            },
    {
        run_steps(self.session, steps, pause)
    }
}


impl InvalidStepId {
    /// The error's text: the rejected ID, quoted as `{:?}` quotes it.
    pub fn message(&self) -> (text: String)
        ensures
            text@ == "invalid step ID: "@ + debug_text(self.0@),
    {
        let mut text = String::from_str("invalid step ID: ");
        let quoted = debug_quoted(self.0.as_str());
        text.append(quoted.as_str());
        text
    }
}

/// The name a validation reason is shown with.
pub open spec fn reason_name(reason: ValidationReason) -> Seq<char> {
    match reason {
        ValidationReason::DuplicateId => "DuplicateId"@,
        ValidationReason::EmptySend => "EmptySend"@,
        ValidationReason::InvalidReadLimit => "InvalidReadLimit"@,
        ValidationReason::EmptyDelimiter => "EmptyDelimiter"@,
        ValidationReason::DelimiterExceedsReadLimit => "DelimiterExceedsReadLimit"@,
        ValidationReason::ZeroRepeatCount => "ZeroRepeatCount"@,
    }
}

impl ValidationError {
    pub open spec fn spec_message(&self) -> Seq<char> {
        "invalid step "@ + self.step_id@ + ": "@ + reason_name(self.reason)
    }

    /// The error's text: the step ID and the reason's name.
    pub fn message(&self) -> (text: String)
        ensures
            text@ == self.spec_message(),
    {
        let mut text = String::from_str("invalid step ");
        text.append(self.step_id.as_str());
        text.append(": ");
        let name = match self.reason {
            ValidationReason::DuplicateId => "DuplicateId",
            ValidationReason::EmptySend => "EmptySend",
            ValidationReason::InvalidReadLimit => "InvalidReadLimit",
            ValidationReason::EmptyDelimiter => "EmptyDelimiter",
            ValidationReason::DelimiterExceedsReadLimit => "DelimiterExceedsReadLimit",
            ValidationReason::ZeroRepeatCount => "ZeroRepeatCount",
        };
        text.append(name);
        text
    }
}

impl ExecutionFailure {
    pub open spec fn spec_message_prefix(&self) -> Seq<char> {
        "step "@ + self.step_id@ + " failed: "@ + error_text(self.error)
    }

    /// The error's text: the failing step's ID, then the serial error's text.
    pub fn message(&self) -> (text: String)
        ensures
            self.spec_message_prefix().is_prefix_of(text@),
            !(self.error is ReadFailed || self.error is WriteFailed || self.error is FlushFailed)
                ==> text@ == self.spec_message_prefix(),
    {
        let mut text = String::from_str("step ");
        text.append(self.step_id.as_str());
        text.append(" failed: ");
        let detail = self.error.message();
        text.append(detail.as_str());
        proof {
            let head = "step "@ + self.step_id@ + " failed: "@;
            assert(text@ == head + detail@);
            assert(self.spec_message_prefix() == head + error_text(self.error));
            assert(text@.take(self.spec_message_prefix().len() as int) =~= self.spec_message_prefix());
        }
        text
    }
}

impl RunError {
    /// The error's text: that of the validation error or of the execution failure.
    pub fn message(&self) -> (text: String)
        ensures
            self matches RunError::Validation(e) ==> text@ == e.spec_message(),
            self matches RunError::Execution(f) ==> f.spec_message_prefix().is_prefix_of(text@),
            self matches RunError::Execution(f) ==> (!(f.error is ReadFailed || f.error is WriteFailed
                || f.error is FlushFailed) ==> text@ == f.spec_message_prefix()),
    {
        match self {
            RunError::Validation(error) => error.message(),
            RunError::Execution(failure) => failure.message(),
        }
    }
}

} // verus!
