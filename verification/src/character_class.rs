//! Character classes and the registry that numbers them.
use vstd::prelude::*;
use crate::char_matcher::{matcher_has, CharMatcher};

verus! {

/// The syntactic kind of a character class: a literal character, the dot, or a class written
/// in brackets, as a Perl class or as a Unicode class.
#[derive(Debug, Clone, Copy, PartialEq, Eq, Structural)]
pub enum ClassKeyKind {
    /// A single literal character.
    Literal,
    /// The dot, matching any character but a line feed.
    Dot,
    /// A bracketed, Perl or Unicode class.
    Class,
}

/// The key by which two character classes are considered equal: literals by their character
/// and literal kind, the dot always, and other classes by their text.
#[derive(Debug, Clone)]
pub struct ClassKey {
    /// The syntactic kind of the class.
    pub kind: ClassKeyKind,
    /// The character of a literal, `'\0'` otherwise.
    pub c: char,
    /// The literal kind of a literal, the text of a class, empty for the dot.
    pub text: Vec<char>,
}

impl View for ClassKey {
    type V = (ClassKeyKind, char, Seq<char>);

    open spec fn view(&self) -> Self::V {
        (self.kind, self.c, self.text@)
    }
}

/// A character class that can match a character.
#[derive(Debug)]
pub struct CharacterClass {
    /// The index of the class in its registry.
    pub id: usize,
    /// The key that identifies the class.
    pub key: ClassKey,
    /// The predicate that decides which characters the class contains.
    pub matcher: CharMatcher,
}

/// Compares two character sequences.
pub fn chars_equal(a: &Vec<char>, b: &Vec<char>) -> (r: bool)
    ensures
        r == (a@ == b@),
{
    if a.len() != b.len() {
        return false;
    }
    let mut i: usize = 0;
    while i < a.len()
        invariant
            a@.len() == b@.len(),
            i <= a@.len(),
            forall|j: int| 0 <= j < i ==> a@[j] == b@[j],
        decreases a@.len() - i,
    {
        if a[i] != b[i] {
            return false;
        }
        i = i + 1;
    }
    assert(a@ =~= b@);
    true
}

impl ClassKey {
    /// Compares two class keys.
    pub fn equals(&self, other: &ClassKey) -> (r: bool)
        ensures
            r == (self@ == other@),
    {
        self.kind == other.kind && self.c == other.c && chars_equal(&self.text, &other.text)
    }

    /// A copy of the key.
    pub fn duplicate(&self) -> (r: ClassKey)
        ensures
            r@ == self@,
    {
        let mut text: Vec<char> = Vec::new();
        let mut i: usize = 0;
        while i < self.text.len()
            invariant
                i <= self.text@.len(),
                text@ == self.text@.take(i as int),
            decreases self.text@.len() - i,
        {
            text.push(self.text[i]);
            i = i + 1;
            assert(text@ =~= self.text@.take(i as int));
        }
        assert(text@ =~= self.text@);
        ClassKey { kind: self.kind, c: self.c, text }
    }
}

impl CharacterClass {
    /// Create a new character class.
    pub fn new(id: usize, key: ClassKey, matcher: CharMatcher) -> (r: Self)
        ensures
            r.id == id,
            r.key@ == key@,
            r.matcher == matcher,
    {
        CharacterClass { id, key, matcher }
    }

    /// Checks whether the class contains the character `c`.
    pub fn contains(&self, c: char) -> (r: bool)
        ensures
            r == matcher_has(self.matcher, c),
    {
        self.matcher.matches(c)
    }
}

/// The view of a class key: its kind, its character and its text.
pub type KeyView = (ClassKeyKind, char, Seq<char>);

/// The registry of `keys2` and `cls2` extends that of `keys` and `cls`: each has a matcher for
/// each key, the later one keeps the classes of the earlier one at their indices and may add
/// more, and no key is registered twice.
pub open spec fn registry_extends(
    keys: Seq<KeyView>,
    cls: Seq<CharMatcher>,
    keys2: Seq<KeyView>,
    cls2: Seq<CharMatcher>,
) -> bool {
    &&& keys.len() == cls.len()
    &&& keys2.len() == cls2.len()
    &&& keys.len() <= keys2.len()
    &&& keys2.no_duplicates()
    &&& forall|i: int| 0 <= i < keys.len() ==> #[trigger] keys2[i] == keys[i] && cls2[i] == cls[i]
}

/// A registry extends itself, and an extension of an extension is an extension.
pub proof fn lemma_registry_extends(
    k1: Seq<KeyView>,
    c1: Seq<CharMatcher>,
    k2: Seq<KeyView>,
    c2: Seq<CharMatcher>,
    k3: Seq<KeyView>,
    c3: Seq<CharMatcher>,
)
    ensures
        k1.len() == c1.len() && k1.no_duplicates() ==> registry_extends(k1, c1, k1, c1),
        registry_extends(k1, c1, k2, c2) && registry_extends(k2, c2, k3, c3) ==> registry_extends(k1, c1, k3, c3),
{
    if registry_extends(k1, c1, k2, c2) && registry_extends(k2, c2, k3, c3) {
        assert forall|i: int| 0 <= i < k1.len() implies #[trigger] k3[i] == k1[i] && c3[i] == c1[i] by {
            assert(k3[i] == k2[i]);
        }
    }
}

/// The inclusive intervals are non-empty, sorted and disjoint.
pub open spec fn intervals_sorted(iv: Seq<(char, char)>) -> bool {
    &&& forall|j: int| 0 <= j < iv.len() ==> (#[trigger] iv[j]).0 <= iv[j].1
    &&& forall|i: int, j: int| 0 <= i < j < iv.len() ==> (#[trigger] iv[i]).1 < (#[trigger] iv[j]).0
}

/// Every class contains either all characters of an interval or none of them.
pub open spec fn classes_constant_on(cls: Seq<CharMatcher>, iv: Seq<(char, char)>) -> bool {
    forall|k: int, j: int, c: char|
        #![trigger matcher_has(cls[k], c), iv[j]]
        0 <= k < cls.len() && 0 <= j < iv.len() && iv[j].0 <= c <= iv[j].1
            ==> (matcher_has(cls[k], c) == matcher_has(cls[k], iv[j].0))
}

/// Every character that a class contains lies in one of the intervals.
pub open spec fn intervals_cover(cls: Seq<CharMatcher>, iv: Seq<(char, char)>) -> bool {
    forall|k: int, c: char| 0 <= k < cls.len() && #[trigger] matcher_has(cls[k], c)
        ==> exists|j: int| 0 <= j < iv.len() && (#[trigger] iv[j]).0 <= c <= iv[j].1
}

/// The intervals are elementary intervals of the classes: sorted and disjoint, each lying
/// wholly inside or wholly outside every class, and together covering all characters of the
/// classes.
pub open spec fn elementary_intervals(cls: Seq<CharMatcher>, iv: Seq<(char, char)>) -> bool {
    &&& intervals_sorted(iv)
    &&& classes_constant_on(cls, iv)
    &&& intervals_cover(cls, iv)
}

/// With elementary intervals, class `k` contains `c` exactly when one of the intervals lying
/// inside the class contains `c`.
pub proof fn lemma_class_is_its_intervals(cls: Seq<CharMatcher>, iv: Seq<(char, char)>, k: int, c: char)
    requires
        elementary_intervals(cls, iv),
        0 <= k < cls.len(),
    ensures
        matcher_has(cls[k], c) <==> exists|j: int| 0 <= j < iv.len() && (#[trigger] iv[j]).0 <= c <= iv[j].1
            && matcher_has(cls[k], iv[j].0),
{
    if matcher_has(cls[k], c) {
        let j = choose|j: int| 0 <= j < iv.len() && (#[trigger] iv[j]).0 <= c <= iv[j].1;
        assert(matcher_has(cls[k], c) == matcher_has(cls[k], iv[j].0));
    }
    if exists|j: int| 0 <= j < iv.len() && (#[trigger] iv[j]).0 <= c <= iv[j].1 && matcher_has(cls[k], iv[j].0) {
        let j = choose|j: int| 0 <= j < iv.len() && (#[trigger] iv[j]).0 <= c <= iv[j].1 && matcher_has(cls[k], iv[j].0);
        assert(matcher_has(cls[k], c) == matcher_has(cls[k], iv[j].0));
    }
}

/// The code of a character.
pub open spec fn char_code(c: char) -> u32 {
    c as u32
}

/// Characters are ordered by their codes, and no character has a surrogate code or one above
/// `0x10FFFF`.
pub proof fn lemma_char_code(c: char, d: char)
    ensures
        c < d <==> char_code(c) < char_code(d),
        c <= d <==> char_code(c) <= char_code(d),
        char_code(c) <= 0xD7FF || (0xE000 <= char_code(c) && char_code(c) <= 0x10FFFF),
{
}

/// The character with the given code, as std's `char::from_u32` gives it: `None` for a
/// surrogate code or one above `0x10FFFF`, which its documentation names as the codes that are
/// no `char`.
#[verifier::external_body]
fn char_from_u32(u: u32) -> (r: Option<char>)
    ensures
        r is None <==> ((0xD800 <= u && u <= 0xDFFF) || u > 0x10FFFF),
        r matches Some(c) ==> char_code(c) == u,
{
    char::from_u32(u)
}

/// A registry of character classes. Each class is registered once and identified by its index.
#[derive(Debug)]
pub struct CharacterClassRegistry {
    character_classes: Vec<CharacterClass>,
    elementary_intervals: Vec<(char, char)>,
}

impl CharacterClassRegistry {
    /// The registered classes in registration order.
    pub closed spec fn spec_classes(&self) -> Seq<CharacterClass> {
        self.character_classes@
    }

    /// The elementary intervals, as the last call of
    /// [Self::create_disjoint_character_classes] computed them.
    pub closed spec fn intervals(&self) -> Seq<(char, char)> {
        self.elementary_intervals@
    }

    /// The keys of the registered classes in registration order.
    pub closed spec fn keys(&self) -> Seq<(ClassKeyKind, char, Seq<char>)> {
        Seq::new(self.character_classes@.len(), |i: int| self.character_classes@[i].key@)
    }

    /// The matchers of the registered classes in registration order.
    pub closed spec fn class_matchers(&self) -> Seq<CharMatcher> {
        Seq::new(self.character_classes@.len(), |i: int| self.character_classes@[i].matcher)
    }

    /// Every class sits at the index of its id and no key is registered twice.
    pub closed spec fn wf(&self) -> bool {
        &&& forall|i: int|
            0 <= i < self.character_classes@.len() ==> #[trigger] self.character_classes@[i].id
                == i
        &&& forall|i: int, j: int|
            0 <= i < j < self.character_classes@.len() ==> #[trigger] self.character_classes@[i].key@
                != #[trigger] self.character_classes@[j].key@
    }

    /// Creates a new, empty registry.
    pub fn new() -> (r: Self)
        ensures
            r.wf(),
            r.keys().len() == 0,
            r.class_matchers().len() == 0,
    {
        Self { character_classes: Vec::new(), elementary_intervals: Vec::new() }
    }

    /// Returns the classes of the registry.
    pub fn character_classes(&self) -> (r: &[CharacterClass])
        ensures
            r@ == self.spec_classes(),
    {
        self.character_classes.as_slice()
    }

    /// Adds a character class to the registry if no class with an equal key is present and
    /// returns the id of the class with that key.
    pub fn add_character_class(&mut self, key: ClassKey, matcher: CharMatcher) -> (r: usize)
        requires
            old(self).wf(),
        ensures
            final(self).wf(),
            r < final(self).keys().len(),
            final(self).keys()[r as int] == key@,
            old(self).keys().contains(key@) ==> final(self).keys() == old(self).keys()
                && final(self).class_matchers() == old(self).class_matchers(),
            !old(self).keys().contains(key@) ==> final(self).keys() == old(self).keys().push(key@)
                && final(self).class_matchers() == old(self).class_matchers().push(matcher),
            registry_extends(old(self).keys(), old(self).class_matchers(), final(self).keys(), final(self).class_matchers()),
    {
        proof {
            self.lemma_views();
        }
        let mut i: usize = 0;
        while i < self.character_classes.len()
            invariant
                self.wf(),
                *self == *old(self),
                i <= self.character_classes@.len(),
                forall|j: int|
                    0 <= j < i ==> #[trigger] self.character_classes@[j].key@ != key@,
            decreases self.character_classes@.len() - i,
        {
            if self.character_classes[i].key.equals(&key) {
                assert(self.keys()[i as int] == key@);
                proof {
                    lemma_registry_extends(self.keys(), self.class_matchers(), self.keys(), self.class_matchers(), self.keys(), self.class_matchers());
                }
                return i;
            }
            i = i + 1;
        }
        assert(!self.keys().contains(key@)) by {
            if self.keys().contains(key@) {
                let j = choose|j: int| 0 <= j < self.keys().len() && self.keys()[j] == key@;
                assert(self.character_classes@[j].key@ == key@);
            }
        }
        let id = self.character_classes.len();
        let ghost m = matcher;
        self.character_classes.push(CharacterClass::new(id, key, matcher));
        assert(self.keys() =~= old(self).keys().push(key@));
        assert(self.class_matchers() =~= old(self).class_matchers().push(m));
        proof {
            self.lemma_views();
        }
        id
    }

    /// A well-formed registry has a matcher for each key and registers no key twice.
    pub proof fn lemma_views(&self)
        requires
            self.wf(),
        ensures
            self.keys().len() == self.class_matchers().len(),
            self.keys().no_duplicates(),
    {
        assert forall|i: int, j: int|
            0 <= i < self.keys().len() && 0 <= j < self.keys().len() && i != j implies self.keys()[i] != self.keys()[j] by {
            if i < j {
                assert(self.character_classes@[i].key@ != self.character_classes@[j].key@);
            } else {
                assert(self.character_classes@[j].key@ != self.character_classes@[i].key@);
            }
        }
    }

    /// Returns the character class with the given id.
    pub fn get_character_class(&self, id: usize) -> (r: Option<&CharacterClass>)
        ensures
            id < self.spec_classes().len() ==> r == Some(&self.spec_classes()[id as int]),
            id >= self.spec_classes().len() ==> r is None,
    {
        if id < self.character_classes.len() {
            Some(&self.character_classes[id])
        } else {
            None
        }
    }

    /// Returns the number of character classes in the registry.
    pub fn len(&self) -> (r: usize)
        ensures
            r == self.keys().len(),
    {
        self.character_classes.len()
    }

    /// Returns true if the registry is empty.
    pub fn is_empty(&self) -> (r: bool)
        ensures
            r == (self.keys().len() == 0),
    {
        self.character_classes.len() == 0
    }

    /// Which classes contain `c`, by class id.
    fn signature(&self, c: char) -> (r: Vec<bool>)
        ensures
            r@.len() == self.class_matchers().len(),
            forall|k: int| 0 <= k < r@.len() ==> #[trigger] r@[k] == matcher_has(self.class_matchers()[k], c),
    {
        let mut r: Vec<bool> = Vec::new();
        let mut k: usize = 0;
        while k < self.character_classes.len()
            invariant
                k <= self.character_classes@.len(),
                r@.len() == k,
                forall|i: int| 0 <= i < k ==> #[trigger] r@[i] == matcher_has(self.class_matchers()[i], c),
            decreases self.character_classes@.len() - k,
        {
            r.push(self.matches(k, c));
            k = k + 1;
        }
        r
    }

    /// Whether `c` is in exactly the classes marked in `sig`.
    fn same_signature(&self, sig: &Vec<bool>, c: char) -> (r: bool)
        requires
            sig@.len() == self.class_matchers().len(),
        ensures
            r == forall|k: int| 0 <= k < sig@.len() ==> #[trigger] sig@[k] == matcher_has(self.class_matchers()[k], c),
    {
        let mut k: usize = 0;
        while k < sig.len()
            invariant
                sig@.len() == self.class_matchers().len(),
                k <= sig@.len(),
                forall|i: int| 0 <= i < k ==> #[trigger] sig@[i] == matcher_has(self.class_matchers()[i], c),
            decreases sig@.len() - k,
        {
            if sig[k] != self.matches(k, c) {
                return false;
            }
            k = k + 1;
        }
        true
    }

    /// Computes the elementary intervals of the registered classes (see
    /// [elementary_intervals]): the maximal runs of characters that are in the same classes, as
    /// far as they lie in some class. The classes are predicates, so every character is asked.
    #[verifier::rlimit(50)]
    pub fn create_disjoint_character_classes(&mut self)
        requires
            old(self).wf(),
        ensures
            final(self).wf(),
            final(self).spec_classes() == old(self).spec_classes(),
            final(self).keys() == old(self).keys(),
            final(self).class_matchers() == old(self).class_matchers(),
            elementary_intervals(final(self).class_matchers(), final(self).intervals()),
    {
        let ghost cls = self.class_matchers();
        let mut intervals: Vec<(char, char)> = Vec::new();
        let mut open = false;
        let mut lo: char = '\0';
        let mut hi: char = '\0';
        let mut sig: Vec<bool> = Vec::new();
        let mut u: u32 = 0;
        while u < 0x110000
            invariant
                cls == self.class_matchers(),
                u <= 0x110000,
                !open ==> u == 0 && intervals@.len() == 0,
                open ==> lo <= hi && char_code(hi) < u && sig@.len() == cls.len(),
                open ==> forall|d: char| hi < d ==> u <= #[trigger] char_code(d),
                open ==> forall|k: int, d: char| 0 <= k < cls.len() && lo <= d <= hi ==> #[trigger] matcher_has(cls[k], d) == sig@[k],
                open ==> forall|j: int| 0 <= j < intervals@.len() ==> (#[trigger] intervals@[j]).1 < lo,
                intervals_sorted(intervals@),
                classes_constant_on(cls, intervals@),
                forall|k: int, d: char| 0 <= k < cls.len() && char_code(d) < u && #[trigger] matcher_has(cls[k], d) ==>
                    (exists|j: int| 0 <= j < intervals@.len() && (#[trigger] intervals@[j]).0 <= d <= intervals@[j].1)
                    || (open && lo <= d <= hi),
            decreases 0x110000 - u,
        {
            match char_from_u32(u) {
                None => {
                    proof {
                        assert forall|d: char| hi < d implies u + 1 <= #[trigger] char_code(d) by {
                            lemma_char_code(d, d);
                        }
                        assert forall|k: int, d: char| 0 <= k < cls.len() && char_code(d) < u + 1 && #[trigger] matcher_has(cls[k], d) implies
                            (exists|j: int| 0 <= j < intervals@.len() && (#[trigger] intervals@[j]).0 <= d <= intervals@[j].1)
                            || (open && lo <= d <= hi) by {
                            lemma_char_code(d, d);
                        }
                    }
                },
                Some(c) => {
                    proof {
                        lemma_char_code(hi, c);
                        assert forall|d: char| c < d implies u + 1 <= #[trigger] char_code(d) by {
                            lemma_char_code(c, d);
                        }
                    }
                    if open && self.same_signature(&sig, c) {
                        proof {
                            lemma_char_code(lo, hi);
                            lemma_char_code(lo, c);
                        }
                        let ghost old_hi = hi;
                        hi = c;
                        proof {
                            assert forall|k: int, d: char| 0 <= k < cls.len() && char_code(d) < u + 1 && #[trigger] matcher_has(cls[k], d) implies
                                (exists|j: int| 0 <= j < intervals@.len() && (#[trigger] intervals@[j]).0 <= d <= intervals@[j].1)
                                || (open && lo <= d <= hi) by {
                                lemma_char_code(d, c);
                                lemma_char_code(lo, d);
                                lemma_char_code(d, old_hi);
                            }
                            assert forall|k: int, d: char| 0 <= k < cls.len() && lo <= d <= hi implies #[trigger] matcher_has(cls[k], d) == sig@[k] by {
                                if d != c {
                                    lemma_char_code(d, c);
                                    lemma_char_code(old_hi, d);
                                }
                            }
                        }
                    } else {
                        let ghost old_open = open;
                        let ghost old_sig = sig@;
                        let ghost old_lo = lo;
                        let ghost old_hi = hi;
                        let ghost old_intervals = intervals@;
                        let any = crate::compiled_nfa::Automaton::any_state(&sig);
                        if open && any {
                            let ghost before = intervals@;
                            intervals.push((lo, hi));
                            proof {
                                assert forall|j: int| 0 <= j < before.len() implies #[trigger] intervals@[j] == before[j] by {}
                            }
                        }
                        sig = self.signature(c);
                        lo = c;
                        hi = c;
                        open = true;
                        proof {
                            assert forall|k: int, d: char| 0 <= k < cls.len() && char_code(d) < u + 1 && #[trigger] matcher_has(cls[k], d) implies
                                (exists|j: int| 0 <= j < intervals@.len() && (#[trigger] intervals@[j]).0 <= d <= intervals@[j].1)
                                || (open && lo <= d <= hi) by {
                                lemma_char_code(d, c);
                                lemma_char_code(c, d);
                                if char_code(d) < u {
                                    if old_open && old_lo <= d <= old_hi {
                                        if intervals@.len() > old_intervals.len() {
                                            assert(intervals@[old_intervals.len() as int] == (old_lo, old_hi));
                                        } else {
                                            assert(matcher_has(cls[k], d) == old_sig[k]);
                                            assert(old_sig[k]);
                                            assert(false);
                                        }
                                    } else {
                                        assert((exists|j: int| 0 <= j < old_intervals.len() && (#[trigger] old_intervals[j]).0 <= d <= old_intervals[j].1)
                                            || (old_open && old_lo <= d <= old_hi));
                                        let j = choose|j: int| 0 <= j < old_intervals.len() && (#[trigger] old_intervals[j]).0 <= d <= old_intervals[j].1;
                                        assert(intervals@[j] == old_intervals[j]);
                                    }
                                }
                            }
                            assert forall|j: int| 0 <= j < intervals@.len() implies (#[trigger] intervals@[j]).1 < lo by {
                                if j < old_intervals.len() {
                                    lemma_char_code(intervals@[j].1, c);
                                    if old_open {
                                        lemma_char_code(intervals@[j].1, old_lo);
                                        lemma_char_code(old_lo, old_hi);
                                    }
                                } else {
                                    assert(intervals@[j] == (old_lo, old_hi));
                                    lemma_char_code(old_hi, c);
                                }
                            }
                        }
                    }
                },
            }
            u = u + 1;
        }
        let ghost before = intervals@;
        let any = crate::compiled_nfa::Automaton::any_state(&sig);
        if any {
            intervals.push((lo, hi));
        }
        proof {
            let iv = intervals@;
            assert forall|j: int| 0 <= j < before.len() implies #[trigger] iv[j] == before[j] by {}
            assert(intervals_sorted(iv)) by {
                assert forall|i: int, j: int| 0 <= i < j < iv.len() implies (#[trigger] iv[i]).1 < (#[trigger] iv[j]).0 by {
                    if j == before.len() {
                        assert(iv[j] == (lo, hi));
                    }
                }
            }
            assert(classes_constant_on(cls, iv)) by {
                assert forall|k: int, j: int, d: char|
                    #![trigger matcher_has(cls[k], d), iv[j]]
                    0 <= k < cls.len() && 0 <= j < iv.len() && iv[j].0 <= d <= iv[j].1
                        implies (matcher_has(cls[k], d) == matcher_has(cls[k], iv[j].0)) by {
                    if j == before.len() {
                        assert(iv[j] == (lo, hi));
                        assert(matcher_has(cls[k], d) == sig@[k]);
                        assert(matcher_has(cls[k], lo) == sig@[k]);
                    } else {
                        assert(iv[j] == before[j]);
                    }
                }
            }
            assert(intervals_cover(cls, iv)) by {
                assert forall|k: int, d: char| 0 <= k < cls.len() && #[trigger] matcher_has(cls[k], d)
                    implies exists|j: int| 0 <= j < iv.len() && (#[trigger] iv[j]).0 <= d <= iv[j].1 by {
                    lemma_char_code(d, d);
                    if lo <= d <= hi {
                        assert(matcher_has(cls[k], d) == sig@[k]);
                        assert(any);
                        assert(iv[before.len() as int] == (lo, hi));
                    } else {
                        let j = choose|j: int| 0 <= j < before.len() && (#[trigger] before[j]).0 <= d <= before[j].1;
                        assert(iv[j] == before[j]);
                    }
                }
            }
        }
        self.elementary_intervals = intervals;
    }

    /// A copy of the elementary intervals.
    pub fn intervals_copy(&self) -> (r: Vec<(char, char)>)
        ensures
            r@ == self.intervals(),
    {
        let mut r: Vec<(char, char)> = Vec::new();
        let mut j: usize = 0;
        while j < self.elementary_intervals.len()
            invariant
                j <= self.elementary_intervals@.len(),
                r@ == self.elementary_intervals@.take(j as int),
            decreases self.elementary_intervals@.len() - j,
        {
            r.push(self.elementary_intervals[j]);
            j = j + 1;
            assert(r@ =~= self.elementary_intervals@.take(j as int));
        }
        assert(self.elementary_intervals@.take(j as int) =~= self.elementary_intervals@);
        r
    }

    /// Checks whether the class with id `cc` contains `c`; an unknown id contains nothing.
    pub fn matches(&self, cc: usize, c: char) -> (r: bool)
        ensures
            r == (cc < self.class_matchers().len() && matcher_has(self.class_matchers()[cc as int], c)),
    {
        if cc < self.character_classes.len() {
            self.character_classes[cc].contains(c)
        } else {
            false
        }
    }
}

} // verus!
