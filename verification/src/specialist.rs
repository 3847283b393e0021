//! Specialists: small components that answer requests they know, and say how well they know them.

use crate::scalar::Scalar;
use crate::text::{
    all_ascii, ascii_lowered, chars_of, contains_chars, has_substring, lowercase, to_lowercase,
};
use std::sync::Arc;
use vstd::prelude::*;

verus! {

/// A component that answers requests.
pub trait Specialist: Send + Sync {
    /// The specialist can be asked.
    spec fn ready(&self) -> bool;

    /// Its name.
    spec fn named(&self) -> Seq<char>;

    /// It can give this score to a request.
    spec fn may_score(&self, input: &str, score: Scalar) -> bool;

    /// It can answer a request so.
    spec fn may_answer(&self, input: &str, answer: String) -> bool;

    /// The unique name.
    fn name(&self) -> (r: &str)
        requires
            self.ready(),
        ensures
            r@ == self.named(),
    ;

    /// How sure, from zero to one, the specialist is that it can answer the request.
    fn score(&self, input: &str) -> (r: Scalar)
        requires
            self.ready(),
        ensures
            self.may_score(input, r),
    ;

    /// The answer.
    fn handle(&self, input: &str) -> (r: String)
        requires
            self.ready(),
        ensures
            self.may_answer(input, r),
    ;

    /// The mean latency to expect, in milliseconds.
    fn avg_latency_ms(&self) -> (r: u64)
        requires
            self.ready(),
        default_ensures
            r == 5,
    {
        5
    }
}

/// A specialist that is given its score and its answer as functions.
pub struct ClosureSpecialist<S, H> {
    name: String,
    score_fn: S,
    handle_fn: H,
    avg_latency_ms: u64,
}

impl<S, H> ClosureSpecialist<S, H> where
    S: Fn(&str) -> Scalar + Send + Sync,
    H: Fn(&str) -> String + Send + Sync,
 {
    /// The function of the score.
    pub closed spec fn score_fn(self) -> S {
        self.score_fn
    }

    /// The function of the answer.
    pub closed spec fn handle_fn(self) -> H {
        self.handle_fn
    }

    /// A specialist with the given name, mean latency, score and answer.
    pub fn new(name: &str, avg_latency_ms: u64, score: S, handle: H) -> (r: ClosureSpecialist<S, H>)
        requires
            forall|input: &str| #[trigger] call_requires(score, (input,)),
            forall|input: &str| #[trigger] call_requires(handle, (input,)),
        ensures
            r.ready(),
            r.named() == name@,
            r.score_fn() == score,
            r.handle_fn() == handle,
            r.latency() == avg_latency_ms,
    {
        ClosureSpecialist {
            name: name.to_owned(),
            score_fn: score,
            handle_fn: handle,
            avg_latency_ms,
        }
    }

    /// The mean latency that was given.
    pub closed spec fn latency(self) -> u64 {
        self.avg_latency_ms
    }
}

impl<S, H> Specialist for ClosureSpecialist<S, H> where
    S: Fn(&str) -> Scalar + Send + Sync,
    H: Fn(&str) -> String + Send + Sync,
 {
    closed spec fn ready(&self) -> bool {
        &&& forall|input: &str| #[trigger] call_requires(self.score_fn, (input,))
        &&& forall|input: &str| #[trigger] call_requires(self.handle_fn, (input,))
    }

    closed spec fn named(&self) -> Seq<char> {
        self.name@
    }

    open spec fn may_score(&self, input: &str, score: Scalar) -> bool {
        exists|s: Scalar| #[trigger] call_ensures(self.score_fn(), (input,), s) && score
            == s.clamp_unit_spec()
    }

    open spec fn may_answer(&self, input: &str, answer: String) -> bool {
        call_ensures(self.handle_fn(), (input,), answer)
    }

    fn name(&self) -> (r: &str) {
        self.name.as_str()
    }

    fn score(&self, input: &str) -> (r: Scalar) {
        let s: Scalar = (self.score_fn)(input);
        let r = s.clamp_unit();
        proof {
            assert(call_ensures(self.score_fn(), (input,), s));
        }
        r
    }

    fn handle(&self, input: &str) -> (r: String) {
        (self.handle_fn)(input)
    }

    fn avg_latency_ms(&self) -> (r: u64)
        ensures
            r == self.latency(),
    {
        self.avg_latency_ms
    }
}

/// A boxed specialist is the specialist in the box.
impl<T: Specialist + ?Sized> Specialist for Box<T> {
    open spec fn ready(&self) -> bool {
        (**self).ready()
    }

    open spec fn named(&self) -> Seq<char> {
        (**self).named()
    }

    open spec fn may_score(&self, input: &str, score: Scalar) -> bool {
        (**self).may_score(input, score)
    }

    open spec fn may_answer(&self, input: &str, answer: String) -> bool {
        (**self).may_answer(input, answer)
    }

    fn name(&self) -> (r: &str) {
        (**self).name()
    }

    fn score(&self, input: &str) -> (r: Scalar) {
        (**self).score(input)
    }

    fn handle(&self, input: &str) -> (r: String) {
        (**self).handle(input)
    }

    fn avg_latency_ms(&self) -> (r: u64)
        ensures
            call_ensures(T::avg_latency_ms, (&**self,), r),
    {
        (**self).avg_latency_ms()
    }
}

/// A shared specialist is the specialist that is shared.
impl<T: Specialist + ?Sized> Specialist for Arc<T> {
    open spec fn ready(&self) -> bool {
        (**self).ready()
    }

    open spec fn named(&self) -> Seq<char> {
        (**self).named()
    }

    open spec fn may_score(&self, input: &str, score: Scalar) -> bool {
        (**self).may_score(input, score)
    }

    open spec fn may_answer(&self, input: &str, answer: String) -> bool {
        (**self).may_answer(input, answer)
    }

    fn name(&self) -> (r: &str) {
        (**self).name()
    }

    fn score(&self, input: &str) -> (r: Scalar) {
        (**self).score(input)
    }

    fn handle(&self, input: &str) -> (r: String) {
        (**self).handle(input)
    }

    fn avg_latency_ms(&self) -> (r: u64)
        ensures
            call_ensures(T::avg_latency_ms, (&**self,), r),
    {
        (**self).avg_latency_ms()
    }
}

/// How many of the first `n` triggers stand in a text.
pub open spec fn trigger_hits(triggers: Seq<String>, text: Seq<char>, n: nat) -> nat
    decreases n,
{
    if n == 0 {
        0
    } else {
        trigger_hits(triggers, text, (n - 1) as nat) + if has_substring(text, triggers[n - 1]@) {
            1nat
        } else {
            0nat
        }
    }
}

/// The share of the triggers that stand in a text; zero where there is no trigger.
pub open spec fn trigger_share(triggers: Seq<String>, text: Seq<char>) -> Scalar {
    if triggers.len() == 0 {
        Scalar { bits: 0 }
    } else {
        Scalar::ratio_spec(trigger_hits(triggers, text, triggers.len()), triggers.len())
    }
}

/// The share of the triggers that stand in a text; zero where there is no trigger.
pub fn share_of_triggers(triggers: &[String], text: &str) -> (r: Scalar)
    ensures
        r == trigger_share(triggers@, text@),
{
    if triggers.len() == 0 {
        return Scalar::zero();
    }
    let chars = chars_of(text);
    let mut hits: usize = 0;
    let mut i: usize = 0;
    while i < triggers.len()
        invariant
            i <= triggers@.len(),
            hits <= i,
            chars@ == text@,
            hits == trigger_hits(triggers@, text@, i as nat),
        decreases triggers.len() - i,
    {
        let needle = chars_of(triggers[i].as_str());
        if contains_chars(chars.as_slice(), needle.as_slice()) {
            hits = hits + 1;
        }
        i = i + 1;
    }
    Scalar::ratio(hits as u64, triggers.len() as u64)
}

/// The triggers are the words in lower case.
pub open spec fn triggers_lowered(words: Seq<&str>, triggers: Seq<String>) -> bool {
    &&& triggers.len() == words.len()
    &&& forall|i: int|
        0 <= i < words.len() ==> is_lower_case_of(#[trigger] triggers[i]@, words[i]@)
}

/// `lower` is the word in lower case, which is the same whatever the case of its ASCII letters.
pub open spec fn is_lower_case_of(lower: Seq<char>, word: Seq<char>) -> bool {
    &&& lower == lowercase(word)
    &&& lower == lowercase(ascii_lowered(word))
    &&& all_ascii(word) ==> lower == ascii_lowered(word)
}

/// Two words differ in the case of ASCII letters at most.
pub open spec fn same_but_for_case(a: Seq<char>, b: Seq<char>) -> bool {
    ascii_lowered(a) == ascii_lowered(b)
}

/// A specialist that is sure to the degree to which its trigger words stand in a request, in
/// whatever case.
pub struct KeywordSpecialist<F> {
    name: String,
    triggers: Vec<String>,
    response_fn: F,
}

impl<F> KeywordSpecialist<F> where F: Fn(&str) -> String + Send + Sync {
    /// The trigger words, in lower case.
    pub closed spec fn triggers(self) -> Seq<String> {
        self.triggers@
    }

    /// The function of the answer.
    pub closed spec fn response_fn(self) -> F {
        self.response_fn
    }

    /// A specialist with the given name, trigger words and answer.
    pub fn new(name: &str, triggers: Vec<&str>, response: F) -> (r: KeywordSpecialist<F>)
        requires
            forall|input: &str| #[trigger] call_requires(response, (input,)),
        ensures
            r.ready(),
            r.named() == name@,
            r.response_fn() == response,
            triggers_lowered(triggers@, r.triggers()),
    {
        let mut lowered: Vec<String> = Vec::new();
        let mut i: usize = 0;
        while i < triggers.len()
            invariant
                i <= triggers@.len(),
                lowered@.len() == i,
                forall|j: int|
                    0 <= j < i ==> is_lower_case_of(#[trigger] lowered@[j]@, triggers@[j]@),
            decreases triggers.len() - i,
        {
            lowered.push(to_lowercase(triggers[i]));
            i = i + 1;
        }
        KeywordSpecialist { name: name.to_owned(), triggers: lowered, response_fn: response }
    }
}

impl<F> Specialist for KeywordSpecialist<F> where F: Fn(&str) -> String + Send + Sync {
    closed spec fn ready(&self) -> bool {
        forall|input: &str| #[trigger] call_requires(self.response_fn, (input,))
    }

    closed spec fn named(&self) -> Seq<char> {
        self.name@
    }

    open spec fn may_score(&self, input: &str, score: Scalar) -> bool {
        score == trigger_share(self.triggers(), lowercase(input@))
    }

    open spec fn may_answer(&self, input: &str, answer: String) -> bool {
        call_ensures(self.response_fn(), (input,), answer)
    }

    fn name(&self) -> (r: &str) {
        self.name.as_str()
    }

    fn score(&self, input: &str) -> (r: Scalar)
        ensures
            all_ascii(input@) ==> r == trigger_share(self.triggers(), ascii_lowered(input@)),
    {
        if self.triggers.len() == 0 {
            return Scalar::zero();
        }
        let lowered = to_lowercase(input);
        share_of_triggers(self.triggers.as_slice(), lowered.as_str())
    }

    fn handle(&self, input: &str) -> (r: String) {
        (self.response_fn)(input)
    }
}

proof fn lemma_hits_bound(triggers: Seq<String>, text: Seq<char>, n: nat)
    ensures
        trigger_hits(triggers, text, n) <= n,
        (forall|i: int| 0 <= i < n ==> has_substring(text, (#[trigger] triggers[i])@))
            <==> trigger_hits(triggers, text, n) == n,
        (forall|i: int| 0 <= i < n ==> !has_substring(text, (#[trigger] triggers[i])@))
            <==> trigger_hits(triggers, text, n) == 0,
    decreases n,
{
    if n > 0 {
        lemma_hits_bound(triggers, text, (n - 1) as nat);
        assert(has_substring(text, triggers[n - 1]@) || !has_substring(text, triggers[n - 1]@));
    }
}

/// The score of triggers is a share: a number from zero to one, which is one where every trigger
/// stands in the text and zero where none does. The limits of a score never change it.
pub proof fn law_trigger_share_is_a_share(triggers: Seq<String>, text: Seq<char>)
    requires
        triggers.len() <= u64::MAX,
    ensures
        !trigger_share(triggers, text).nan(),
        0 <= trigger_share(triggers, text).key() <= crate::scalar::ONE_BITS,
        trigger_share(triggers, text).clamp_unit_spec() == trigger_share(triggers, text),
        triggers.len() > 0 && (forall|i: int|
            0 <= i < triggers.len() ==> has_substring(text, (#[trigger] triggers[i])@))
            ==> trigger_share(triggers, text).bits == crate::scalar::ONE_BITS,
        (forall|i: int|
            0 <= i < triggers.len() ==> !has_substring(text, (#[trigger] triggers[i])@))
            ==> trigger_share(triggers, text).bits == 0,
{
    let n = triggers.len();
    lemma_hits_bound(triggers, text, n);
    if n > 0 {
        crate::counts::law_ratio_is_a_share(trigger_hits(triggers, text, n) as u64, n as u64);
    }
}

proof fn lemma_hits_of_same_triggers(
    a: Seq<String>,
    b: Seq<String>,
    text: Seq<char>,
    n: nat,
)
    requires
        n <= a.len(),
        n <= b.len(),
        forall|i: int| 0 <= i < n ==> (#[trigger] a[i])@ == b[i]@,
    ensures
        trigger_hits(a, text, n) == trigger_hits(b, text, n),
    decreases n,
{
    if n > 0 {
        lemma_hits_of_same_triggers(a, b, text, (n - 1) as nat);
        assert(a[n - 1]@ == b[n - 1]@);
    }
}

/// The case of the ASCII letters in trigger words does not matter: specialists whose words differ
/// in nothing else, be they of ASCII characters only or not, give every request the same score, and
/// with the same function of the answer they answer it alike.
pub proof fn law_case_of_triggers_is_free<F>(
    a: KeywordSpecialist<F>,
    b: KeywordSpecialist<F>,
    a_words: Seq<&str>,
    b_words: Seq<&str>,
    input: &str,
    a_score: Scalar,
    b_score: Scalar,
) where F: Fn(&str) -> String + Send + Sync
    requires
        triggers_lowered(a_words, a.triggers()),
        triggers_lowered(b_words, b.triggers()),
        a_words.len() == b_words.len(),
        forall|i: int|
            0 <= i < a_words.len() ==> same_but_for_case((#[trigger] a_words[i])@, b_words[i]@),
        a.response_fn() == b.response_fn(),
        a.may_score(input, a_score),
        b.may_score(input, b_score),
    ensures
        a_score == b_score,
        forall|answer: String|
            a.may_answer(input, answer) <==> #[trigger] b.may_answer(input, answer),
{
    assert forall|i: int| 0 <= i < a.triggers().len() implies (#[trigger] a.triggers()[i])@
        == b.triggers()[i]@ by {
        assert(same_but_for_case(a_words[i]@, b_words[i]@));
    }
    lemma_hits_of_same_triggers(
        a.triggers(),
        b.triggers(),
        lowercase(input@),
        a.triggers().len(),
    );
}

} // verus!
