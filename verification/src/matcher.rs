//! The argv glob matcher: deny patterns first, then at least one allow.

use vstd::prelude::*;
use crate::ext::{glob_valid, glob_match, glob_is_valid, glob_matches};
use crate::policy::PolicyError;
use crate::util::{join_spaces, join_with_spaces, push_str_chars};

verus! {

/// Every pattern of the list compiles as a glob.
pub open spec fn all_valid(pats: Seq<Seq<char>>) -> bool {
    forall|i: int| 0 <= i < pats.len() ==> glob_valid(#[trigger] pats[i])
}

/// Some pattern of the list matches the text.
pub open spec fn any_match(pats: Seq<Seq<char>>, text: Seq<char>) -> bool {
    exists|i: int| 0 <= i < pats.len() && glob_match(#[trigger] pats[i], text)
}

/// The argv decision: no deny pattern matches the joined argv, and at least
/// one allow pattern does.  An empty allow list therefore denies everything.
pub open spec fn argv_allowed(
    allow: Seq<Seq<char>>,
    deny: Seq<Seq<char>>,
    joined: Seq<char>,
) -> bool {
    !any_match(deny, joined) && any_match(allow, joined)
}

/// Matches a joined argv string against allow and deny glob patterns.
pub struct ArgvMatcher {
    allow_patterns: Vec<String>,
    deny_patterns: Vec<String>,
}

impl ArgvMatcher {
    /// The allow patterns, as the contracts see them.
    pub closed spec fn allow(&self) -> Seq<Seq<char>> {
        self.allow_patterns.deep_view()
    }

    /// The deny patterns, as the contracts see them.
    pub closed spec fn deny(&self) -> Seq<Seq<char>> {
        self.deny_patterns.deep_view()
    }

    /// Every stored pattern compiled.
    pub closed spec fn wf(&self) -> bool {
        all_valid(self.allow()) && all_valid(self.deny())
    }

    /// Compiles the pattern lists; the first pattern that is not a valid
    /// glob makes construction fail.
    pub fn new(allow_patterns: Vec<String>, deny_patterns: Vec<String>) -> (r: Result<
        ArgvMatcher,
        PolicyError,
    >)
        ensures
            r matches Ok(m) ==> (m.wf() && m.allow() == allow_patterns.deep_view() && m.deny()
                == deny_patterns.deep_view()),
            r is Ok <==> (all_valid(allow_patterns.deep_view()) && all_valid(
                deny_patterns.deep_view(),
            )),
            r matches Err(e) ==> e is InvalidPattern,
    {
        let mut k: usize = 0;
        while k < allow_patterns.len()
            invariant
                0 <= k <= allow_patterns@.len(),
                forall|i: int| 0 <= i < k ==> glob_valid(
                    #[trigger] allow_patterns.deep_view()[i],
                ),
            decreases allow_patterns@.len() - k,
        {
            proof {
                assert(allow_patterns.deep_view()[k as int] == allow_patterns@[k as int]@);
            }
            if !glob_is_valid(allow_patterns[k].as_str()) {
                assert(!glob_valid(allow_patterns.deep_view()[k as int]));
                return Err(PolicyError::InvalidPattern(invalid_pattern_message(
                    allow_patterns[k].as_str(),
                )));
            }
            k = k + 1;
        }
        let mut k: usize = 0;
        while k < deny_patterns.len()
            invariant
                0 <= k <= deny_patterns@.len(),
                forall|i: int| 0 <= i < k ==> glob_valid(#[trigger] deny_patterns.deep_view()[i]),
            decreases deny_patterns@.len() - k,
        {
            proof {
                assert(deny_patterns.deep_view()[k as int] == deny_patterns@[k as int]@);
            }
            if !glob_is_valid(deny_patterns[k].as_str()) {
                assert(!glob_valid(deny_patterns.deep_view()[k as int]));
                return Err(PolicyError::InvalidPattern(invalid_pattern_message(
                    deny_patterns[k].as_str(),
                )));
            }
            k = k + 1;
        }
        Ok(ArgvMatcher { allow_patterns, deny_patterns })
    }

    /// Joins `argv` with single spaces and decides it: `true` iff no deny
    /// glob matches the joined string and at least one allow glob does.
    pub fn matches(&self, argv: &Vec<String>) -> (r: bool)
        requires
            self.wf(),
        ensures
            r == argv_allowed(self.allow(), self.deny(), join_spaces(argv.deep_view())),
    {
        let joined_chars = join_with_spaces(argv);
        let joined = crate::ext::chars_to_string(&joined_chars);
        let ghost text = join_spaces(argv.deep_view());

        let mut k: usize = 0;
        while k < self.deny_patterns.len()
            invariant
                self.wf(),
                joined@ == text,
                text == join_spaces(argv.deep_view()),
                0 <= k <= self.deny().len(),
                forall|i: int| 0 <= i < k ==> !glob_match(#[trigger] self.deny()[i], text),
            decreases self.deny().len() - k,
        {
            proof {
                assert(self.deny()[k as int] == self.deny_patterns@[k as int]@);
            }
            if glob_matches(self.deny_patterns[k].as_str(), joined.as_str()) {
                proof {
                    let ghost ki = k as int;
                    assert(0 <= ki < self.deny().len());
                    assert(glob_match(self.deny()[ki], text));
                    assert(any_match(self.deny(), text));
                }
                return false;
            }
            k = k + 1;
        }
        assert(!any_match(self.deny(), text));

        let mut k: usize = 0;
        while k < self.allow_patterns.len()
            invariant
                self.wf(),
                joined@ == text,
                text == join_spaces(argv.deep_view()),
                !any_match(self.deny(), text),
                0 <= k <= self.allow().len(),
                forall|i: int| 0 <= i < k ==> !glob_match(#[trigger] self.allow()[i], text),
            decreases self.allow().len() - k,
        {
            proof {
                assert(self.allow()[k as int] == self.allow_patterns@[k as int]@);
            }
            if glob_matches(self.allow_patterns[k].as_str(), joined.as_str()) {
                proof {
                    let ghost ki = k as int;
                    assert(0 <= ki < self.allow().len());
                    assert(glob_match(self.allow()[ki], text));
                    assert(any_match(self.allow(), text));
                }
                return true;
            }
            k = k + 1;
        }
        assert(!any_match(self.allow(), text));
        false
    }
}

/// The message reported for a pattern that did not compile.
pub open spec fn invalid_pattern_text(pat: Seq<char>) -> Seq<char> {
    "invalid glob pattern: "@ + pat
}

/// Builds the invalid-pattern message.
fn invalid_pattern_message(pat: &str) -> (r: String)
    ensures
        r@ == invalid_pattern_text(pat@),
{
    let mut out: Vec<char> = Vec::new();
    push_str_chars(&mut out, "invalid glob pattern: ");
    push_str_chars(&mut out, pat);
    crate::ext::chars_to_string(&out)
}

/// A deny match refuses the argv whatever the allow patterns say.
pub proof fn lemma_deny_precedence(
    allow: Seq<Seq<char>>,
    deny: Seq<Seq<char>>,
    joined: Seq<char>,
)
    requires
        any_match(deny, joined),
    ensures
        !argv_allowed(allow, deny, joined),
{
}

/// An argv matching no allow pattern is refused whatever the deny patterns
/// say; in particular an empty allow list refuses every argv.
pub proof fn lemma_allow_required(
    allow: Seq<Seq<char>>,
    deny: Seq<Seq<char>>,
    joined: Seq<char>,
)
    requires
        !any_match(allow, joined),
    ensures
        !argv_allowed(allow, deny, joined),
{
}

} // verus!
