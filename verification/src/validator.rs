//! Request-level validation checks shared by both dispatchers: JSON-RPC
//! method lists, JSON-RPC parameter filters, binary paths, shell safety.

use vstd::prelude::*;
use crate::ext::{
    glob_valid, glob_match, glob_is_valid, glob_matches, json_wf, json_has_params, json_param_str,
    json_lookup_param, ParamLookup, chars_to_string,
};
use crate::policy::{ParamFilter, PolicyError};
use crate::strmap::{StrMap, has_key, value_of};
use crate::util::{contains_seq, contains_char, push_str_chars, str_eq, str_to_chars,
    chars_contain_seq};

verus! {

use vstd::std_specs::iter::IteratorSpec;

broadcast use vstd::string::group_string_axioms;

/// The characters that allow command chaining, substitution, redirection or
/// field splitting when a string reaches a shell.
pub open spec fn is_dangerous_char(c: char) -> bool {
    ||| c == ';'
    ||| c == '|'
    ||| c == '&'
    ||| c == '$'
    ||| c == '`'
    ||| c == '('
    ||| c == ')'
    ||| c == '<'
    ||| c == '>'
    ||| c == '\n'
    ||| c == '\r'
    ||| c == '\t'
}

/// A string is shell-dangerous when any of its characters is.
pub open spec fn has_dangerous_chars(s: Seq<char>) -> bool {
    exists|i: int| 0 <= i < s.len() && is_dangerous_char(s[i])
}

/// Membership of a string in a list of strings.
pub open spec fn in_list(list: Seq<Seq<char>>, x: Seq<char>) -> bool {
    exists|i: int| 0 <= i < list.len() && list[i] == x
}

/// The method decision: denied methods win, then a non-empty allow list
/// must name the method.  Empty allow and empty deny admit every method.
pub open spec fn method_allowed(
    method: Seq<char>,
    allowed: Seq<Seq<char>>,
    denied: Seq<Seq<char>>,
) -> bool {
    !in_list(denied, method) && (allowed.len() == 0 || in_list(allowed, method))
}

/// A binary path is acceptable when it has no `..` and no NUL byte.
pub open spec fn binary_path_ok(p: Seq<char>) -> bool {
    !contains_seq(p, ".."@) && !contains_char(p, '\u{0}')
}

/// First index of the pattern list that either fails to compile or matches
/// the value; the scan order of the filter loops.
pub open spec fn first_hit(pats: Seq<Seq<char>>, v: Seq<char>) -> Option<int>
    decreases pats.len(),
{
    if pats.len() == 0 {
        None
    } else if !glob_valid(pats[0]) || glob_match(pats[0], v) {
        Some(0)
    } else {
        match first_hit(pats.drop_first(), v) {
            Some(i) => Some(i + 1),
            None => None,
        }
    }
}

/// What `first_hit` returns: the first hit position, or none anywhere.
pub proof fn lemma_first_hit(pats: Seq<Seq<char>>, v: Seq<char>)
    ensures
        match first_hit(pats, v) {
            Some(i) => 0 <= i < pats.len() && (!glob_valid(pats[i]) || glob_match(pats[i], v))
                && (forall|j: int| 0 <= j < i ==> glob_valid(#[trigger] pats[j]) && !glob_match(
                pats[j],
                v,
            )),
            None => forall|j: int| 0 <= j < pats.len() ==> glob_valid(#[trigger] pats[j])
                && !glob_match(pats[j], v),
        },
    decreases pats.len(),
{
    if pats.len() > 0 && glob_valid(pats[0]) && !glob_match(pats[0], v) {
        lemma_first_hit(pats.drop_first(), v);
        assert(forall|i: int| 0 <= i < pats.drop_first().len() ==> pats.drop_first()[i] == pats[i
            + 1]);
        match first_hit(pats.drop_first(), v) {
            Some(i) => {
                assert(pats.drop_first()[i] == pats[i + 1]);
                assert forall|j: int| 0 <= j < i + 1 implies glob_valid(#[trigger] pats[j])
                    && !glob_match(pats[j], v) by {
                    if j > 0 {
                        assert(pats.drop_first()[j - 1] == pats[j]);
                    }
                }
            },
            None => {
                assert forall|j: int| 0 <= j < pats.len() implies glob_valid(#[trigger] pats[j])
                    && !glob_match(pats[j], v) by {
                    if j > 0 {
                        assert(pats.drop_first()[j - 1] == pats[j]);
                    }
                }
            },
        }
    }
}

/// The parameter-filter decision for one filter and one body, mirroring the
/// scan order of `validate_jsonrpc_params`: the body must parse, carry a
/// `params` object and resolve the field to one string; no deny pattern may
/// be invalid or match; and a non-empty allow list must reach a valid,
/// matching pattern before any invalid one.
pub open spec fn filter_passes(f: ParamFilter, body: Seq<char>) -> bool {
    &&& json_wf(body)
    &&& json_has_params(body)
    &&& json_param_str(body, f.field@) is Some
    &&& first_hit(f.deny_patterns.deep_view(), json_param_str(body, f.field@)->Some_0) is None
    &&& (f.allow_patterns.deep_view().len() == 0 || (match first_hit(
        f.allow_patterns.deep_view(),
        json_param_str(body, f.field@)->Some_0,
    ) {
        Some(i) => glob_valid(f.allow_patterns.deep_view()[i]),
        None => false,
    }))
}

/// The whole parameter decision: pass when no filter is configured for the
/// method, else apply the method's filter to the body.
pub open spec fn params_allowed(
    method: Seq<char>,
    body: Seq<char>,
    filters: Seq<(Seq<char>, ParamFilter)>,
) -> bool {
    !has_key(filters, method) || filter_passes(value_of(filters, method), body)
}

/// The message a parameter-filter rejection carries, by the same case
/// order the scan follows: body shape first, then the deny scan, then the
/// allow scan.
pub open spec fn params_reject_text(f: ParamFilter, body: Seq<char>) -> Seq<char> {
    if !json_wf(body) {
        "Invalid JSON in request body"@
    } else if !json_has_params(body) {
        "Missing params field in JSON-RPC request"@
    } else if json_param_str(body, f.field@) is None {
        "Missing or invalid field '"@ + f.field@ + "' in params"@
    } else {
        let v = json_param_str(body, f.field@)->Some_0;
        match first_hit(f.deny_patterns.deep_view(), v) {
            Some(i) => if !glob_valid(f.deny_patterns.deep_view()[i]) {
                "Invalid deny pattern '"@ + f.deny_patterns.deep_view()[i] + "'"@
            } else {
                "Param '"@ + f.field@ + "' value '"@ + v + "' matches deny pattern '"@
                    + f.deny_patterns.deep_view()[i] + "'"@
            },
            None => match first_hit(f.allow_patterns.deep_view(), v) {
                Some(i) => "Invalid allow pattern '"@ + f.allow_patterns.deep_view()[i] + "'"@,
                None => "Param '"@ + f.field@ + "' value '"@ + v + "' not in allow list"@,
            },
        }
    }
}

/// Validator for request-specific policy validation.
pub struct PolicyValidator;

impl PolicyValidator {
    /// Decides a JSON-RPC method name against the allow and deny lists:
    /// denied methods are refused even when also allowed, a non-empty allow
    /// list refuses methods it does not name, and empty lists refuse
    /// nothing.
    pub fn validate_jsonrpc_method(
        method: &str,
        allowed_methods: &Vec<String>,
        denied_methods: &Vec<String>,
    ) -> (r: Result<(), PolicyError>)
        ensures
            r is Ok <==> method_allowed(
                method@,
                allowed_methods.deep_view(),
                denied_methods.deep_view(),
            ),
            r matches Err(e) ==> e is Violation,
            in_list(denied_methods.deep_view(), method@) ==> (r matches Err(e)
                && e.message_spec() == denied_method_text(method@)),
            r matches Err(e) ==> (in_list(denied_methods.deep_view(), method@) || e.message_spec() == not_allowed_method_text(method@)),
    {
        if list_contains(denied_methods, method) {
            let mut out: Vec<char> = Vec::new();
            push_str_chars(&mut out, "Method '");
            push_str_chars(&mut out, method);
            push_str_chars(&mut out, "' is explicitly denied");
            return Err(PolicyError::Violation(chars_to_string(&out)));
        }
        if allowed_methods.len() > 0 && !list_contains(allowed_methods, method) {
            let mut out: Vec<char> = Vec::new();
            push_str_chars(&mut out, "Method '");
            push_str_chars(&mut out, method);
            push_str_chars(&mut out, "' is not in allowed methods");
            return Err(PolicyError::Violation(chars_to_string(&out)));
        }
        Ok(())
    }

    /// Applies the parameter filter configured for `method`, if any, to the
    /// request body: the resolved field value must clear the deny patterns
    /// and, when allow patterns exist, match one of them.
    pub fn validate_jsonrpc_params(
        method: &str,
        body: &str,
        filters: &StrMap<ParamFilter>,
    ) -> (r: Result<(), PolicyError>)
        ensures
            r is Ok <==> params_allowed(method@, body@, filters@),
            r matches Err(e) ==> e is Violation,
            r matches Err(e) ==> e.message_spec() == params_reject_text(value_of(filters@, method@), body@),
    {
        let filter = match filters.get(method) {
            Some(f) => f,
            None => {
                return Ok(());
            },
        };
        let ghost f = value_of(filters@, method@);
        assert(*filter == f);

        let value = match json_lookup_param(body, filter.field.as_str()) {
            ParamLookup::NotJson => {
                return Err(PolicyError::Violation(simple_message(
                    "Invalid JSON in request body",
                )));
            },
            ParamLookup::NoParams => {
                return Err(PolicyError::Violation(simple_message(
                    "Missing params field in JSON-RPC request",
                )));
            },
            ParamLookup::Missing => {
                let mut out: Vec<char> = Vec::new();
                push_str_chars(&mut out, "Missing or invalid field '");
                push_str_chars(&mut out, filter.field.as_str());
                push_str_chars(&mut out, "' in params");
                return Err(PolicyError::Violation(chars_to_string(&out)));
            },
            ParamLookup::Found(v) => v,
        };
        let ghost vv = json_param_str(body@, f.field@)->Some_0;
        assert(value@ == vv);

        let ghost deny = filter.deny_patterns.deep_view();
        let mut k: usize = 0;
        while k < filter.deny_patterns.len()
            invariant
                has_key(filters@, method@),
                *filter == value_of(filters@, method@),
                json_wf(body@),
                json_has_params(body@),
                json_param_str(body@, filter.field@) == Some(vv),
                deny == filter.deny_patterns.deep_view(),
                value@ == vv,
                0 <= k <= deny.len(),
                forall|i: int| 0 <= i < k ==> glob_valid(#[trigger] deny[i]) && !glob_match(
                    deny[i],
                    vv,
                ),
            decreases deny.len() - k,
        {
            proof {
                assert(deny[k as int] == filter.deny_patterns@[k as int]@);
            }
            if !glob_is_valid(filter.deny_patterns[k].as_str()) {
                proof {
                    lemma_first_hit(deny, vv);
                }
                let mut out: Vec<char> = Vec::new();
                push_str_chars(&mut out, "Invalid deny pattern '");
                push_str_chars(&mut out, filter.deny_patterns[k].as_str());
                push_str_chars(&mut out, "'");
                return Err(PolicyError::Violation(chars_to_string(&out)));
            }
            if glob_matches(filter.deny_patterns[k].as_str(), value.as_str()) {
                proof {
                    lemma_first_hit(deny, vv);
                }
                let mut out: Vec<char> = Vec::new();
                push_str_chars(&mut out, "Param '");
                push_str_chars(&mut out, filter.field.as_str());
                push_str_chars(&mut out, "' value '");
                push_str_chars(&mut out, value.as_str());
                push_str_chars(&mut out, "' matches deny pattern '");
                push_str_chars(&mut out, filter.deny_patterns[k].as_str());
                push_str_chars(&mut out, "'");
                return Err(PolicyError::Violation(chars_to_string(&out)));
            }
            k = k + 1;
        }
        proof {
            lemma_first_hit(deny, vv);
            if first_hit(deny, vv) is Some {
                let i = first_hit(deny, vv)->Some_0;
                assert(glob_valid(deny[i]) && !glob_match(deny[i], vv));
            }
        }

        let ghost allow = filter.allow_patterns.deep_view();
        if filter.allow_patterns.len() > 0 {
            let mut k: usize = 0;
            while k < filter.allow_patterns.len()
                invariant
                    has_key(filters@, method@),
                    *filter == value_of(filters@, method@),
                    json_wf(body@),
                    json_has_params(body@),
                    json_param_str(body@, filter.field@) == Some(vv),
                    first_hit(filter.deny_patterns.deep_view(), vv) is None,
                    allow == filter.allow_patterns.deep_view(),
                    allow.len() > 0,
                    value@ == vv,
                    0 <= k <= allow.len(),
                    forall|i: int| 0 <= i < k ==> glob_valid(#[trigger] allow[i]) && !glob_match(
                        allow[i],
                        vv,
                    ),
                decreases allow.len() - k,
            {
                proof {
                    assert(allow[k as int] == filter.allow_patterns@[k as int]@);
                }
                if !glob_is_valid(filter.allow_patterns[k].as_str()) {
                    proof {
                        lemma_first_hit(allow, vv);
                    }
                    let mut out: Vec<char> = Vec::new();
                    push_str_chars(&mut out, "Invalid allow pattern '");
                    push_str_chars(&mut out, filter.allow_patterns[k].as_str());
                    push_str_chars(&mut out, "'");
                    return Err(PolicyError::Violation(chars_to_string(&out)));
                }
                if glob_matches(filter.allow_patterns[k].as_str(), value.as_str()) {
                    proof {
                        lemma_first_hit(allow, vv);
                    }
                    return Ok(());
                }
                k = k + 1;
            }
            proof {
                lemma_first_hit(allow, vv);
                if first_hit(allow, vv) is Some {
                    let i = first_hit(allow, vv)->Some_0;
                    assert(glob_valid(allow[i]) && !glob_match(allow[i], vv));
                }
            }
            let mut out: Vec<char> = Vec::new();
            push_str_chars(&mut out, "Param '");
            push_str_chars(&mut out, filter.field.as_str());
            push_str_chars(&mut out, "' value '");
            push_str_chars(&mut out, value.as_str());
            push_str_chars(&mut out, "' not in allow list");
            return Err(PolicyError::Violation(chars_to_string(&out)));
        }
        Ok(())
    }

    /// Refuses a binary path holding `..` or a NUL byte.
    pub fn validate_binary_path(path: &str) -> (r: Result<(), PolicyError>)
        ensures
            r is Ok <==> binary_path_ok(path@),
            r matches Err(e) ==> e is Violation,
    {
        let chars = str_to_chars(path);
        let dots = str_to_chars("..");
        proof {
            reveal_strlit("..");
        }
        if chars_contain_seq(&chars, &dots) {
            let mut out: Vec<char> = Vec::new();
            push_str_chars(&mut out, "Binary path contains path traversal: ");
            push_str_chars(&mut out, path);
            return Err(PolicyError::Violation(chars_to_string(&out)));
        }
        if crate::util::str_contains_char(path, '\u{0}') {
            return Err(PolicyError::Violation(simple_message("Binary path contains null byte")));
        }
        Ok(())
    }

    /// Returns true iff any character of `s` belongs to the dangerous set
    /// { ; | & $ ` ( ) < > \n \r \t }.
    pub fn has_dangerous_shell_chars(s: &str) -> (r: bool)
        ensures
            r == has_dangerous_chars(s@),
    {
        let mut it = s.chars();
        let ghost mut taken: int = 0;
        loop
            invariant
                0 <= taken <= s@.len(),
                it.obeys_prophetic_iter_laws(),
                it.remaining() =~= s@.skip(taken),
                forall|i: int| 0 <= i < taken ==> !is_dangerous_char(s@[i]),
            decreases s@.len() - taken,
        {
            match it.next() {
                Some(c) => {
                    if c == ';' || c == '|' || c == '&' || c == '$' || c == '`' || c == '('
                        || c == ')' || c == '<' || c == '>' || c == '\n' || c == '\r' || c == '\t' {
                        assert(is_dangerous_char(s@[taken]));
                        return true;
                    }
                    proof {
                        taken = taken + 1;
                    }
                },
                None => {
                    assert(s@.skip(taken).len() == 0);
                    return false;
                },
            }
        }
    }
}

/// A method named by the deny list is refused even when the allow list
/// names it too.
pub proof fn lemma_method_deny_precedence(
    method: Seq<char>,
    allowed: Seq<Seq<char>>,
    denied: Seq<Seq<char>>,
)
    requires
        in_list(denied, method),
    ensures
        !method_allowed(method, allowed, denied),
{
}

/// A parameter filter refuses a body whose field is missing or is neither
/// a string nor an array headed by one, whatever the pattern lists say.
pub proof fn lemma_param_filter_requires_field(f: ParamFilter, body: Seq<char>)
    requires
        json_wf(body),
        json_has_params(body),
        json_param_str(body, f.field@) is None,
    ensures
        !filter_passes(f, body),
{
}

/// The message for an explicitly denied method.
pub open spec fn denied_method_text(m: Seq<char>) -> Seq<char> {
    "Method '"@ + m + "' is explicitly denied"@
}

/// The message for a method absent from a non-empty allow list.
pub open spec fn not_allowed_method_text(m: Seq<char>) -> Seq<char> {
    "Method '"@ + m + "' is not in allowed methods"@
}

/// Copies a literal message into an owned string.
fn simple_message(text: &str) -> (r: String)
    ensures
        r@ == text@,
{
    let mut out: Vec<char> = Vec::new();
    push_str_chars(&mut out, text);
    chars_to_string(&out)
}

/// Scans a list of strings for `x`.
fn list_contains(list: &Vec<String>, x: &str) -> (r: bool)
    ensures
        r == in_list(list.deep_view(), x@),
{
    let mut k: usize = 0;
    while k < list.len()
        invariant
            0 <= k <= list@.len(),
            forall|i: int| 0 <= i < k ==> #[trigger] list.deep_view()[i] != x@,
        decreases list@.len() - k,
    {
        proof {
            assert(list.deep_view()[k as int] == list@[k as int]@);
        }
        if str_eq(list[k].as_str(), x) {
            assert(list.deep_view()[k as int] == x@);
            return true;
        }
        k = k + 1;
    }
    proof {
        if in_list(list.deep_view(), x@) {
            let i = choose|i: int| 0 <= i < list.deep_view().len() && list.deep_view()[i] == x@;
            assert(list.deep_view()[i] != x@);
        }
    }
    false
}

} // verus!
