//! The upload policy that a token signs.

use crate::text::{
    contains_text, decimal, decimal_signed, digits, occurs_at, replace_all, replaced,
};
use vstd::prelude::*;

verus! {

/// The policy before its placeholders are filled in.
pub open spec fn policy_template() -> Seq<char> {
    r#"{"scope": "{bucket}:{key}", "deadline": {deadline}, "fsizeLimit": 1073741824, "returnBody": "{\"hash\": $(etag), \"key\": $(key)}"}"#@
}

/// The policy for one object: the placeholders of the template are filled in
/// one after the other, the bucket first and the key last.
pub open spec fn put_policy_text(bucket: Seq<char>, key: Seq<char>, deadline: int) -> Seq<char> {
    replaced(
        replaced(
            replaced(policy_template(), "{bucket}"@, bucket),
            "{deadline}"@,
            decimal(deadline),
        ),
        "{key}"@,
        key,
    )
}

/// Writes the policy that lets `key` be uploaded to `bucket` until `deadline`.
pub fn put_policy(bucket: &str, key: &str, deadline: i64) -> (policy: String)
    ensures
        policy@ == put_policy_text(bucket@, key@, deadline as int),
{
    proof {
        reveal_strlit("{bucket}");
        reveal_strlit("{deadline}");
        reveal_strlit("{key}");
    }
    let template =
        r#"{"scope": "{bucket}:{key}", "deadline": {deadline}, "fsizeLimit": 1073741824, "returnBody": "{\"hash\": $(etag), \"key\": $(key)}"}"#;
    let with_bucket = replace_all(template, "{bucket}", bucket);
    let until = decimal_signed(deadline);
    let with_deadline = replace_all(with_bucket.as_str(), "{deadline}", until.as_str());
    replace_all(with_deadline.as_str(), "{key}", key)
}

proof fn lemma_replaced_after(
    head: Seq<char>,
    rest: Seq<char>,
    pattern: Seq<char>,
    with: Seq<char>,
)
    requires
        pattern.len() > 0,
        forall|at: int| 0 <= at < head.len() ==> !#[trigger] occurs_at(head + rest, pattern, at),
    ensures
        replaced(head + rest, pattern, with) == head + replaced(rest, pattern, with),
    decreases head.len(),
{
    let text = head + rest;
    if head.len() == 0 {
        assert(text == rest);
        assert(head + replaced(rest, pattern, with) == replaced(rest, pattern, with));
    } else {
        let shorter = head.skip(1);
        assert(text.skip(1) == shorter + rest);
        assert(!occurs_at(text, pattern, 0));
        assert forall|at: int| 0 <= at < shorter.len() implies !#[trigger] occurs_at(
            shorter + rest,
            pattern,
            at,
        ) by {
            assert(!occurs_at(text, pattern, at + 1));
            if at + pattern.len() <= shorter.len() + rest.len() {
                assert((shorter + rest).subrange(at, at + pattern.len()) == text.subrange(
                    at + 1,
                    at + 1 + pattern.len(),
                ));
            }
        }
        lemma_replaced_after(shorter, rest, pattern, with);
        assert(seq![text[0]] + (shorter + replaced(rest, pattern, with)) == head + replaced(
            rest,
            pattern,
            with,
        ));
    }
}

proof fn lemma_replaced_here(rest: Seq<char>, pattern: Seq<char>, with: Seq<char>)
    requires
        pattern.len() > 0,
    ensures
        replaced(pattern + rest, pattern, with) == with + replaced(rest, pattern, with),
{
    let text = pattern + rest;
    assert(text.subrange(0, pattern.len() as int) == pattern);
    assert(occurs_at(text, pattern, 0));
    assert(text.skip(pattern.len() as int) == rest);
}

/// Replacing a pattern by itself changes nothing.
proof fn lemma_replaced_by_itself(text: Seq<char>, pattern: Seq<char>)
    requires
        pattern.len() > 0,
    ensures
        replaced(text, pattern, pattern) == text,
    decreases text.len(),
{
    if text.len() > 0 {
        if occurs_at(text, pattern, 0) {
            let rest = text.skip(pattern.len() as int);
            lemma_replaced_by_itself(rest, pattern);
            assert(text == text.subrange(0, pattern.len() as int) + rest);
        } else {
            lemma_replaced_by_itself(text.skip(1), pattern);
            assert(text == seq![text[0]] + text.skip(1));
        }
    }
}

/// Whether every opening brace in `text` is followed, within it, by a character
/// other than `c`.
spec fn braces_avoid(text: Seq<char>, c: char) -> bool {
    forall|i: int|
        0 <= i < text.len() && #[trigger] text[i] == '{' ==> i + 1 < text.len() && text[i + 1] != c
}

spec fn is_placeholder(pattern: Seq<char>) -> bool {
    &&& pattern.len() >= 2
    &&& pattern[0] == '{'
    &&& !pattern.contains(':')
}

proof fn lemma_skip_fixed(head: Seq<char>, rest: Seq<char>, pattern: Seq<char>, with: Seq<char>)
    requires
        is_placeholder(pattern),
        braces_avoid(head, pattern[1]),
    ensures
        replaced(head + rest, pattern, with) == head + replaced(rest, pattern, with),
{
    let text = head + rest;
    assert forall|at: int| 0 <= at < head.len() implies !#[trigger] occurs_at(
        text,
        pattern,
        at,
    ) by {
        if occurs_at(text, pattern, at) {
            let part = text.subrange(at, at + pattern.len());
            assert(part[0] == head[at]);
            assert(part[1] == text[at + 1]);
        }
    }
    lemma_replaced_after(head, rest, pattern, with);
}

proof fn lemma_skip_free(head: Seq<char>, rest: Seq<char>, pattern: Seq<char>, with: Seq<char>)
    requires
        is_placeholder(pattern),
        !contains_text(head, pattern),
        rest.len() > 0,
        rest[0] == ':',
    ensures
        replaced(head + rest, pattern, with) == head + replaced(rest, pattern, with),
{
    let text = head + rest;
    assert forall|at: int| 0 <= at < head.len() implies !#[trigger] occurs_at(
        text,
        pattern,
        at,
    ) by {
        if occurs_at(text, pattern, at) {
            let part = text.subrange(at, at + pattern.len());
            if at + pattern.len() <= head.len() {
                assert(head.subrange(at, at + pattern.len()) == part);
                assert(occurs_at(head, pattern, at));
            } else {
                assert(part[head.len() - at] == ':');
            }
        }
    }
    lemma_replaced_after(head, rest, pattern, with);
}

spec fn scope_text() -> Seq<char> {
    r#"{"scope": ""#@
}

spec fn deadline_text() -> Seq<char> {
    r#"", "deadline": "#@
}

spec fn limits_text() -> Seq<char> {
    r#", "fsizeLimit": 1073741824, "returnBody": "{\"hash\": $(etag), \"key\": $(key)}"}"#@
}

proof fn lemma_template_parts()
    ensures
        policy_template() == scope_text() + ("{bucket}"@ + (":"@ + ("{key}"@ + (deadline_text() + (
        "{deadline}"@ + limits_text()))))),
{
    reveal_strlit(
        r#"{"scope": "{bucket}:{key}", "deadline": {deadline}, "fsizeLimit": 1073741824, "returnBody": "{\"hash\": $(etag), \"key\": $(key)}"}"#,
    );
    reveal_strlit(r#"{"scope": ""#);
    reveal_strlit("{bucket}");
    reveal_strlit(":");
    reveal_strlit("{key}");
    reveal_strlit(r#"", "deadline": "#);
    reveal_strlit("{deadline}");
    reveal_strlit(
        r#", "fsizeLimit": 1073741824, "returnBody": "{\"hash\": $(etag), \"key\": $(key)}"}"#,
    );
    let whole = scope_text() + ("{bucket}"@ + (":"@ + ("{key}"@ + (deadline_text() + ("{deadline}"@
        + limits_text())))));
    assert(policy_template() =~= whole);
}

proof fn lemma_braces(c: char)
    requires
        c == 'b' || c == 'd' || c == 'k',
    ensures
        braces_avoid(scope_text(), c),
        braces_avoid(":"@, c),
        braces_avoid(deadline_text(), c),
        braces_avoid(limits_text(), c),
        c != 'k' ==> braces_avoid("{key}"@, c),
        c != 'd' ==> braces_avoid("{deadline}"@, c),
{
    reveal_strlit(r#"{"scope": ""#);
    reveal_strlit(":");
    reveal_strlit("{key}");
    reveal_strlit(r#"", "deadline": "#);
    reveal_strlit("{deadline}");
    reveal_strlit(
        r#", "fsizeLimit": 1073741824, "returnBody": "{\"hash\": $(etag), \"key\": $(key)}"}"#,
    );
}

proof fn lemma_placeholders()
    ensures
        is_placeholder("{bucket}"@),
        "{bucket}"@[1] == 'b',
        is_placeholder("{deadline}"@),
        "{deadline}"@[1] == 'd',
        is_placeholder("{key}"@),
        "{key}"@[1] == 'k',
{
    reveal_strlit("{bucket}");
    reveal_strlit("{deadline}");
    reveal_strlit("{key}");
}

/// The policy names the bucket, the key and the deadline in their places and
/// holds nothing else that depends on them. The exception is a bucket whose name
/// itself holds a placeholder that is filled in after the bucket.
pub proof fn lemma_policy_fields(bucket: Seq<char>, key: Seq<char>, deadline: int)
    requires
        !contains_text(bucket, "{deadline}"@),
        !contains_text(bucket, "{key}"@) || key == "{key}"@,
    ensures
        put_policy_text(bucket, key, deadline) == r#"{"scope": ""#@ + bucket + ":"@ + key
            + r#"", "deadline": "#@ + decimal(deadline)
            + r#", "fsizeLimit": 1073741824, "returnBody": "{\"hash\": $(etag), \"key\": $(key)}"}"#@,
{
    let scope = scope_text();
    let colon = ":"@;
    let middle = deadline_text();
    let limits = limits_text();
    let until = decimal(deadline);
    lemma_placeholders();
    lemma_template_parts();
    reveal_strlit(":");

    // The bucket.
    let mark = "{bucket}"@;
    let rest1 = colon + ("{key}"@ + (middle + ("{deadline}"@ + limits)));
    lemma_braces('b');
    lemma_skip_fixed(scope, mark + rest1, mark, bucket);
    lemma_replaced_here(rest1, mark, bucket);
    lemma_skip_fixed(colon, "{key}"@ + (middle + ("{deadline}"@ + limits)), mark, bucket);
    lemma_skip_fixed("{key}"@, middle + ("{deadline}"@ + limits), mark, bucket);
    lemma_skip_fixed(middle, "{deadline}"@ + limits, mark, bucket);
    lemma_skip_fixed("{deadline}"@, limits, mark, bucket);
    lemma_keep_fixed(limits, mark, bucket);
    let text1 = scope + (bucket + rest1);
    assert(replaced(policy_template(), mark, bucket) == text1);

    // The deadline.
    let mark = "{deadline}"@;
    lemma_braces('d');
    lemma_skip_fixed(scope, bucket + rest1, mark, until);
    lemma_skip_free(bucket, rest1, mark, until);
    lemma_skip_fixed(colon, "{key}"@ + (middle + (mark + limits)), mark, until);
    lemma_skip_fixed("{key}"@, middle + (mark + limits), mark, until);
    lemma_skip_fixed(middle, mark + limits, mark, until);
    lemma_replaced_here(limits, mark, until);
    lemma_keep_fixed(limits, mark, until);
    let rest2 = colon + ("{key}"@ + (middle + (until + limits)));
    let text2 = scope + (bucket + rest2);
    assert(replaced(text1, mark, until) == text2);

    // The key.
    let mark = "{key}"@;
    let rest3 = colon + (key + (middle + (until + limits)));
    let text3 = scope + (bucket + rest3);
    if contains_text(bucket, mark) {
        lemma_replaced_by_itself(text2, mark);
    } else {
        lemma_braces('k');
        lemma_decimal_has_no_brace(deadline);
        lemma_skip_fixed(scope, bucket + rest2, mark, key);
        lemma_skip_free(bucket, rest2, mark, key);
        lemma_skip_fixed(colon, mark + (middle + (until + limits)), mark, key);
        lemma_replaced_here(middle + (until + limits), mark, key);
        lemma_skip_fixed(middle, until + limits, mark, key);
        lemma_skip_fixed(until, limits, mark, key);
        lemma_keep_fixed(limits, mark, key);
    }
    assert(replaced(text2, mark, key) == text3);
    assert(text3 =~= scope + bucket + colon + key + middle + until + limits);
}

proof fn lemma_keep_fixed(text: Seq<char>, pattern: Seq<char>, with: Seq<char>)
    requires
        is_placeholder(pattern),
        braces_avoid(text, pattern[1]),
    ensures
        replaced(text, pattern, with) == text,
{
    lemma_skip_fixed(text, seq![], pattern, with);
    assert(text + seq![] == text);
}

proof fn lemma_digits_have_no_brace(n: nat)
    ensures
        forall|i: int| 0 <= i < digits(n).len() ==> #[trigger] digits(n)[i] != '{',
    decreases n,
{
    if n >= 10 {
        lemma_digits_have_no_brace(n / 10);
        let before = digits(n / 10);
        assert forall|i: int| 0 <= i < digits(n).len() implies #[trigger] digits(n)[i] != '{' by {
            if i < before.len() {
                assert(digits(n)[i] == before[i]);
            }
        }
    }
}

proof fn lemma_decimal_has_no_brace(n: int)
    ensures
        forall|i: int| 0 <= i < decimal(n).len() ==> #[trigger] decimal(n)[i] != '{',
{
    if n < 0 {
        lemma_digits_have_no_brace((-n) as nat);
    } else {
        lemma_digits_have_no_brace(n as nat);
    }
}

proof fn lemma_replaced_before_colon(
    head: Seq<char>,
    rest: Seq<char>,
    pattern: Seq<char>,
    with: Seq<char>,
)
    requires
        is_placeholder(pattern),
        rest.len() > 0,
        rest[0] == ':',
    ensures
        replaced(head + rest, pattern, with) == replaced(head, pattern, with) + replaced(
            rest,
            pattern,
            with,
        ),
    decreases head.len(),
{
    let text = head + rest;
    let tail = replaced(rest, pattern, with);
    if head.len() == 0 {
        assert(text =~= rest);
        assert(replaced(head, pattern, with) + tail =~= tail);
    } else if occurs_at(text, pattern, 0) {
        let part = text.subrange(0, pattern.len() as int);
        if pattern.len() > head.len() {
            assert(part[head.len() as int] == ':');
            assert(false);
        }
        assert(head.subrange(0, pattern.len() as int) =~= part);
        let shorter = head.skip(pattern.len() as int);
        assert(text.skip(pattern.len() as int) =~= shorter + rest);
        lemma_replaced_before_colon(shorter, rest, pattern, with);
        assert(with + (replaced(shorter, pattern, with) + tail) =~= (with + replaced(
            shorter,
            pattern,
            with,
        )) + tail);
    } else {
        if pattern.len() <= head.len() {
            assert(head.subrange(0, pattern.len() as int) =~= text.subrange(
                0,
                pattern.len() as int,
            ));
        }
        let shorter = head.skip(1);
        assert(text.skip(1) =~= shorter + rest);
        lemma_replaced_before_colon(shorter, rest, pattern, with);
        assert(seq![text[0]] + (replaced(shorter, pattern, with) + tail) =~= (seq![head[0]]
            + replaced(shorter, pattern, with)) + tail);
    }
}

/// The policy of any bucket: the scope is the bucket, with the deadline and then
/// the key filled in where its name holds their placeholders, a colon and the
/// key as it is; the deadline follows, and the rest is the same in all policies.
pub proof fn lemma_policy_text(bucket: Seq<char>, key: Seq<char>, deadline: int)
    ensures
        put_policy_text(bucket, key, deadline) == r#"{"scope": ""#@ + replaced(
            replaced(bucket, "{deadline}"@, decimal(deadline)),
            "{key}"@,
            key,
        ) + ":"@ + key + r#"", "deadline": "#@ + decimal(deadline)
            + r#", "fsizeLimit": 1073741824, "returnBody": "{\"hash\": $(etag), \"key\": $(key)}"}"#@,
{
    let scope = scope_text();
    let colon = ":"@;
    let middle = deadline_text();
    let limits = limits_text();
    let until = decimal(deadline);
    lemma_placeholders();
    lemma_template_parts();
    reveal_strlit(":");

    // The bucket.
    let mark = "{bucket}"@;
    let rest1 = colon + ("{key}"@ + (middle + ("{deadline}"@ + limits)));
    lemma_braces('b');
    lemma_skip_fixed(scope, mark + rest1, mark, bucket);
    lemma_replaced_here(rest1, mark, bucket);
    lemma_skip_fixed(colon, "{key}"@ + (middle + ("{deadline}"@ + limits)), mark, bucket);
    lemma_skip_fixed("{key}"@, middle + ("{deadline}"@ + limits), mark, bucket);
    lemma_skip_fixed(middle, "{deadline}"@ + limits, mark, bucket);
    lemma_skip_fixed("{deadline}"@, limits, mark, bucket);
    lemma_keep_fixed(limits, mark, bucket);
    let text1 = scope + (bucket + rest1);
    assert(replaced(policy_template(), mark, bucket) == text1);

    // The deadline.
    let mark = "{deadline}"@;
    let bucket2 = replaced(bucket, mark, until);
    lemma_braces('d');
    lemma_skip_fixed(scope, bucket + rest1, mark, until);
    lemma_replaced_before_colon(bucket, rest1, mark, until);
    lemma_skip_fixed(colon, "{key}"@ + (middle + (mark + limits)), mark, until);
    lemma_skip_fixed("{key}"@, middle + (mark + limits), mark, until);
    lemma_skip_fixed(middle, mark + limits, mark, until);
    lemma_replaced_here(limits, mark, until);
    lemma_keep_fixed(limits, mark, until);
    let rest2 = colon + ("{key}"@ + (middle + (until + limits)));
    let text2 = scope + (bucket2 + rest2);
    assert(replaced(text1, mark, until) == text2);

    // The key.
    let mark = "{key}"@;
    let bucket3 = replaced(bucket2, mark, key);
    let rest3 = colon + (key + (middle + (until + limits)));
    let text3 = scope + (bucket3 + rest3);
    lemma_braces('k');
    lemma_decimal_has_no_brace(deadline);
    lemma_skip_fixed(scope, bucket2 + rest2, mark, key);
    lemma_replaced_before_colon(bucket2, rest2, mark, key);
    lemma_skip_fixed(colon, mark + (middle + (until + limits)), mark, key);
    lemma_replaced_here(middle + (until + limits), mark, key);
    lemma_skip_fixed(middle, until + limits, mark, key);
    lemma_skip_fixed(until, limits, mark, key);
    lemma_keep_fixed(limits, mark, key);
    assert(replaced(text2, mark, key) == text3);
    assert(text3 =~= scope + bucket3 + colon + key + middle + until + limits);
}

} // verus!
