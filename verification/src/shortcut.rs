//! Keyboard shortcuts: short random lowercase codes, each handed out once.
use rand::distr::{Alphanumeric, SampleString};
use rand::rngs::StdRng;
use rand::SeedableRng;
use vstd::prelude::*;
use vstd::string::*;
use crate::text::{same_text, string_views};

verus! {

/// An ASCII letter or digit.
pub open spec fn is_ascii_alnum(c: char) -> bool {
    let n = c as u32;
    (48 <= n <= 57) || (65 <= n <= 90) || (97 <= n <= 122)
}

/// An ASCII lowercase letter or digit.
pub open spec fn is_lower_alnum(c: char) -> bool {
    let n = c as u32;
    (48 <= n <= 57) || (97 <= n <= 122)
}

/// The lowercase form of an ASCII character; other characters are kept.
pub open spec fn ascii_lower(c: char) -> char {
    let n = c as u32;
    if 65 <= n <= 90 {
        (n + 32) as char
    } else {
        c
    }
}

/// A shortcut: two or three lowercase ASCII letters or digits.
pub open spec fn is_shortcut(s: Seq<char>) -> bool {
    &&& 2 <= s.len() <= 3
    &&& forall|i: int| 0 <= i < s.len() ==> is_lower_alnum(#[trigger] s[i])
}

/// Where the search for a free shortcut goes after a candidate of `len`
/// characters was already taken on attempt number `tries`: the next attempt
/// at the same length, or after more than a thousand misses one character
/// longer, and nowhere once the length would pass three.
pub open spec fn after_miss(len: nat, tries: nat) -> Option<(nat, nat)> {
    if tries + 1 > 1000 {
        if len + 1 > 3 {
            None
        } else {
            Some((len + 1, 0nat))
        }
    } else {
        Some((len, tries + 1))
    }
}

/// The set of shortcuts handed out so far.
pub struct ShortcutSet {
    items: Vec<String>,
}

impl View for ShortcutSet {
    type V = Set<Seq<char>>;

    closed spec fn view(&self) -> Set<Seq<char>> {
        string_views(self.items@).to_set()
    }
}

impl ShortcutSet {
    /// Each shortcut occurs once and has the shape of a shortcut.
    pub closed spec fn wf(&self) -> bool {
        &&& string_views(self.items@).no_duplicates()
        &&& forall|i: int| 0 <= i < self.items@.len() ==> is_shortcut(#[trigger] self.items@[i]@)
    }

    /// The empty set.
    pub fn new() -> (s: Self)
        ensures
            s.wf(),
            s@ == Set::<Seq<char>>::empty(),
    {
        let s = ShortcutSet { items: Vec::new() };
        assert(string_views(s.items@).to_set() =~= Set::<Seq<char>>::empty());
        s
    }

    /// Every member of a well-formed set is a shortcut, and the set is finite.
    pub proof fn lemma_members(&self)
        requires
            self.wf(),
        ensures
            self@.finite(),
            forall|s: Seq<char>| self@.contains(s) ==> is_shortcut(s),
    {
        vstd::seq_lib::seq_to_set_is_finite(string_views(self.items@));
        assert forall|s: Seq<char>| self@.contains(s) implies is_shortcut(s) by {
            let i = choose|i: int| 0 <= i < string_views(self.items@).len() && string_views(self.items@)[i] == s;
            assert(is_shortcut(self.items@[i]@));
        }
    }

    /// The number of shortcuts in the set.
    pub fn len(&self) -> (n: usize)
        requires
            self.wf(),
        ensures
            n == self@.len(),
    {
        proof {
            string_views(self.items@).unique_seq_to_set();
        }
        self.items.len()
    }

    /// Whether `s` was handed out.
    pub fn contains(&self, s: &str) -> (b: bool)
        ensures
            b == self@.contains(s@),
    {
        let mut i: usize = 0;
        while i < self.items.len()
            invariant
                i <= self.items@.len(),
                forall|j: int| 0 <= j < i ==> self.items@[j]@ != s@,
            decreases self.items@.len() - i,
        {
            if same_text(self.items[i].as_str(), s) {
                assert(string_views(self.items@)[i as int] == s@);
                return true;
            }
            i = i + 1;
        }
        proof {
            if self@.contains(s@) {
                let j = choose|j: int| 0 <= j < string_views(self.items@).len() && string_views(self.items@)[j] == s@;
                assert(self.items@[j]@ == s@);
            }
        }
        false
    }

    fn insert(&mut self, s: String)
        requires
            old(self).wf(),
            !old(self)@.contains(s@),
            is_shortcut(s@),
        ensures
            final(self).wf(),
            final(self)@ == old(self)@.insert(s@),
    {
        let ghost before = string_views(self.items@);
        self.items.push(s);
        assert(string_views(self.items@) =~= before.push(s@));
        assert(!before.contains(s@));
        assert(string_views(self.items@).to_set() =~= before.to_set().insert(s@)) by {
            assert forall|x: Seq<char>| #[trigger] string_views(self.items@).contains(x) <==> before.contains(x) || x == s@ by {
                if string_views(self.items@).contains(x) {
                    let j = choose|j: int| 0 <= j < string_views(self.items@).len() && string_views(self.items@)[j] == x;
                    if j < before.len() {
                        assert(before[j] == x);
                    }
                }
                if before.contains(x) {
                    let j = choose|j: int| 0 <= j < before.len() && before[j] == x;
                    assert(string_views(self.items@)[j] == x);
                }
                if x == s@ {
                    assert(string_views(self.items@)[before.len() as int] == x);
                }
            }
        }
    }
}

/// A candidate shortcut of `len` characters, or `None` when the operating
/// system gives no random seed.
///
/// Seeds `rand::rngs::StdRng` through the fallible
/// `SeedableRng::try_from_os_rng` and calls `Alphanumeric.sample_string` of
/// `rand` with it. The contract claims that a result has exactly `len`
/// characters and that each is an ASCII letter or digit, as the crate's
/// source shows; which characters come out, and whether the seed is had, is
/// chance and is not stated.
#[verifier::external_body]
fn sample_alphanumeric(len: usize) -> (r: Option<String>)
    ensures
        r matches Some(s) ==> s@.len() == len && forall|i: int|
            0 <= i < len ==> is_ascii_alnum(#[trigger] s@[i]),
{
    match StdRng::try_from_os_rng() {
        Ok(mut rng) => Some(Alphanumeric.sample_string(&mut rng, len)),
        Err(_) => None,
    }
}

/// The lowercase form of a text of ASCII letters and digits: each uppercase
/// letter becomes its lowercase letter, every other character stays.
pub fn lowercase_code(s: &str) -> (r: String)
    requires
        forall|i: int| 0 <= i < s@.len() ==> is_ascii_alnum(#[trigger] s@[i]),
    ensures
        r@ == s@.map_values(|c: char| ascii_lower(c)),
{
    let letters = "abcdefghijklmnopqrstuvwxyz";
    let digits = "0123456789";
    proof {
        reveal_strlit("abcdefghijklmnopqrstuvwxyz");
        reveal_strlit("0123456789");
        assert forall|k: int| 0 <= k < 26 implies #[trigger] letters@[k] == ((97 + k) as char) by {
        }
        assert forall|k: int| 0 <= k < 10 implies #[trigger] digits@[k] == ((48 + k) as char) by {
        }
    }
    let n = s.unicode_len();
    let mut r = String::new();
    let mut i: usize = 0;
    while i < n
        invariant
            n == s@.len(),
            i <= n,
            letters@.len() == 26,
            digits@.len() == 10,
            forall|k: int| 0 <= k < 26 ==> #[trigger] letters@[k] == ((97 + k) as char),
            forall|k: int| 0 <= k < 10 ==> #[trigger] digits@[k] == ((48 + k) as char),
            forall|j: int| 0 <= j < s@.len() ==> is_ascii_alnum(#[trigger] s@[j]),
            r@ == s@.take(i as int).map_values(|c: char| ascii_lower(c)),
        decreases n - i,
    {
        let c = s.get_char(i);
        let code = c as u32;
        assert(is_ascii_alnum(s@[i as int]));
        if code >= 97 {
            let k = (code - 97) as usize;
            r.append(letters.substring_char(k, k + 1));
            assert(letters@.subrange(k as int, k + 1) =~= seq![ascii_lower(c)]);
        } else if code >= 65 {
            let k = (code - 65) as usize;
            r.append(letters.substring_char(k, k + 1));
            assert(letters@.subrange(k as int, k + 1) =~= seq![ascii_lower(c)]);
        } else {
            let k = (code - 48) as usize;
            r.append(digits.substring_char(k, k + 1));
            assert(digits@.subrange(k as int, k + 1) =~= seq![ascii_lower(c)]);
        }
        assert(s@.take(i + 1) =~= s@.take(i as int).push(c));
        assert(r@ =~= s@.take(i + 1).map_values(|c: char| ascii_lower(c)));
        i = i + 1;
    }
    assert(s@.take(n as int) =~= s@);
    r
}

/// What the search for a shortcut does with one candidate.
pub enum Attempt {
    /// The candidate was free and is now taken.
    Taken,
    /// The candidate was in use; try again with these length and attempt count.
    Retry { len: usize, tries: u32 },
    /// Too many candidates were in use: the search stops.
    Exhausted,
}

/// Takes `candidate` into `shortcuts` when it is free; otherwise says where
/// the search goes on (see `after_miss`).
pub fn consider_candidate(shortcuts: &mut ShortcutSet, candidate: String, len: usize, tries: u32) -> (a: Attempt)
    requires
        old(shortcuts).wf(),
        is_shortcut(candidate@),
        len <= 3,
        tries <= 1000,
    ensures
        final(shortcuts).wf(),
        !old(shortcuts)@.contains(candidate@) ==> a is Taken && final(shortcuts)@ == old(
            shortcuts,
        )@.insert(candidate@),
        old(shortcuts)@.contains(candidate@) ==> final(shortcuts)@ == old(shortcuts)@ && match a {
            Attempt::Taken => false,
            Attempt::Retry { len: l, tries: t } => after_miss(len as nat, tries as nat) == Some(
                (l as nat, t as nat),
            ),
            Attempt::Exhausted => after_miss(len as nat, tries as nat) is None,
        },
{
    if !shortcuts.contains(candidate.as_str()) {
        shortcuts.insert(candidate);
        return Attempt::Taken;
    }
    let tries = tries + 1;
    if tries > 1000 {
        let len = len + 1;
        if len > 3 {
            Attempt::Exhausted
        } else {
            Attempt::Retry { len, tries: 0 }
        }
    } else {
        Attempt::Retry { len, tries }
    }
}

/// Whether a set holds a shortcut of two characters and one of three.
pub open spec fn holds_both_lengths(s: Set<Seq<char>>) -> bool {
    &&& exists|a: Seq<char>| s.contains(a) && a.len() == 2
    &&& exists|b: Seq<char>| s.contains(b) && b.len() == 3
}

/// A finite set that holds a shortcut of two characters and one of three
/// has at least two members.
pub proof fn lemma_both_lengths_two_members(s: Set<Seq<char>>)
    requires
        s.finite(),
        holds_both_lengths(s),
    ensures
        s.len() >= 2,
{
    let a = choose|a: Seq<char>| s.contains(a) && a.len() == 2;
    let b = choose|b: Seq<char>| s.contains(b) && b.len() == 3;
    assert(s.remove(a).contains(b));
    assert(s.remove(a).len() != 0);
}

/// Why no shortcut was handed out.
#[derive(Clone, Copy, PartialEq, Eq, Structural, Debug)]
pub enum ShortcutError {
    /// More than a thousand random codes of two characters, and then more
    /// than a thousand of three, were in use.
    Exhausted,
    /// The operating system gave no random seed.
    NoRandomness,
}

/// The length of the candidate drawn at attempt number `k` (from 0) of a
/// search: two characters for the first 1001 attempts, three for the next.
pub open spec fn attempt_len(k: int) -> nat {
    if k < 1001 {
        2
    } else {
        3
    }
}

/// The most attempts a search makes: 1001 at each length.
pub open spec fn max_attempts() -> nat {
    2002
}

/// Hands out a fresh shortcut and records it in `shortcuts`: random codes of
/// two characters are tried first, after 1001 codes in use codes of three,
/// and after 1001 of those the search gives up with `Exhausted`, leaving the
/// set as it was. Without a random seed from the operating system the result
/// is `NoRandomness`, the set unchanged.
///
/// The second part of the result records the candidates tried, in order:
/// each has the length its attempt number gives (see `attempt_len`), every
/// one but a shortcut handed out was in use, and `Exhausted` comes exactly
/// after `max_attempts()` candidates in use. A set that holds every code of
/// two and of three characters never yields a shortcut.
pub fn make_shortcut(shortcuts: &mut ShortcutSet) -> (r: (Result<String, ShortcutError>, Ghost<Seq<Seq<char>>>))
    requires
        old(shortcuts).wf(),
    ensures
        final(shortcuts).wf(),
        r.1@.len() <= max_attempts(),
        forall|k: int| 0 <= k < r.1@.len() ==> (#[trigger] r.1@[k]).len() == attempt_len(k),
        match r.0 {
            Ok(s) => {
                &&& is_shortcut(s@)
                &&& !old(shortcuts)@.contains(s@)
                &&& final(shortcuts)@ == old(shortcuts)@.insert(s@)
                &&& r.1@.len() >= 1 && r.1@.last() == s@
                &&& forall|k: int| 0 <= k < r.1@.len() - 1 ==> old(shortcuts)@.contains(#[trigger] r.1@[k])
                &&& s@.len() == 3 ==> exists|a: Seq<char>| old(shortcuts)@.contains(a) && a.len() == 2
            },
            Err(e) => {
                &&& final(shortcuts)@ == old(shortcuts)@
                &&& forall|k: int| 0 <= k < r.1@.len() ==> old(shortcuts)@.contains(#[trigger] r.1@[k])
                &&& e == ShortcutError::Exhausted ==> {
                    &&& r.1@.len() == max_attempts()
                    &&& holds_both_lengths(old(shortcuts)@)
                    &&& old(shortcuts)@.len() >= 2
                }
                &&& e == ShortcutError::NoRandomness ==> r.1@.len() < max_attempts()
            },
        },
        (forall|c: Seq<char>| is_shortcut(c) ==> old(shortcuts)@.contains(c)) ==> r.0 is Err,
        r.1@.len() <= 2002,
        forall|k: int| 0 <= k < r.1@.len() && k < 1001 ==> (#[trigger] r.1@[k]).len() == 2,
        forall|k: int| 1001 <= k < r.1@.len() ==> (#[trigger] r.1@[k]).len() == 3,
        r.0 == Err::<String, ShortcutError>(ShortcutError::Exhausted) ==> r.1@.len() == 2002,
        r.0 == Err::<String, ShortcutError>(ShortcutError::NoRandomness) ==> r.1@.len() < 2002,
{
    let mut len: usize = 2;
    let mut tries: u32 = 0;
    let ghost mut tried: Seq<Seq<char>> = Seq::empty();
    loop
        invariant
            shortcuts.wf(),
            shortcuts@ == old(shortcuts)@,
            2 <= len <= 3,
            tries <= 1000,
            tried.len() == (len - 2) * 1001 + tries,
            forall|k: int| 0 <= k < tried.len() ==> (#[trigger] tried[k]).len() == attempt_len(k),
            forall|k: int| 0 <= k < tried.len() ==> shortcuts@.contains(#[trigger] tried[k]),
            len == 3 ==> exists|a: Seq<char>| shortcuts@.contains(a) && a.len() == 2,
        decreases (3 - len) * 1001 + (1000 - tries),
    {
        let sample = match sample_alphanumeric(len) {
            Some(sample) => sample,
            None => {
                return (Err(ShortcutError::NoRandomness), Ghost(tried));
            },
        };
        let candidate = lowercase_code(sample.as_str());
        let ghost cand = candidate@;
        assert(is_shortcut(cand)) by {
            assert forall|i: int| 0 <= i < cand.len() implies is_lower_alnum(#[trigger] cand[i]) by {
                assert(is_ascii_alnum(sample@[i]));
            }
        }
        assert(cand.len() == len);
        let ghost prev = tried;
        proof {
            tried = tried.push(cand);
            assert(cand.len() == attempt_len(prev.len() as int));
            assert forall|k: int| 0 <= k < tried.len() implies (#[trigger] tried[k]).len() == attempt_len(k) by {
                if k < prev.len() {
                    assert(tried[k] == prev[k]);
                }
            }
        }
        let kept = candidate.clone();
        match consider_candidate(shortcuts, candidate, len, tries) {
            Attempt::Taken => {
                return (Ok(kept), Ghost(tried));
            },
            Attempt::Retry { len: l, tries: t } => {
                assert(shortcuts@.contains(cand));
                assert forall|k: int| 0 <= k < tried.len() implies shortcuts@.contains(#[trigger] tried[k]) by {
                    if k < prev.len() {
                        assert(tried[k] == prev[k]);
                    }
                }
                len = l;
                tries = t;
            },
            Attempt::Exhausted => {
                proof {
                    assert(shortcuts@.contains(cand));
                    assert forall|k: int| 0 <= k < tried.len() implies shortcuts@.contains(#[trigger] tried[k]) by {
                        if k < prev.len() {
                            assert(tried[k] == prev[k]);
                        }
                    }
                    assert(cand.len() == 3);
                    shortcuts.lemma_members();
                    lemma_both_lengths_two_members(shortcuts@);
                }
                return (Err(ShortcutError::Exhausted), Ghost(tried));
            },
        }
    }
}

} // verus!
