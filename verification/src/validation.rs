use vstd::prelude::*;
use crate::text::chars_of;

verus! {

broadcast use vstd::string::group_string_axioms;

/// A failed field check: the field's name, the kind of check (`length`, `regex`, `email`,
/// `range`) and the message the request's rule gives.
#[derive(Debug, Clone)]
pub struct FieldError {
    pub field: String,
    pub code: String,
    pub message: String,
}

/// The failed checks of a request, in the order of its fields.
#[derive(Debug, Clone)]
pub struct ValidationErrors {
    pub errors: Vec<FieldError>,
}

/// The field, check and message of each failed check.
pub open spec fn field_errors_view(v: Seq<FieldError>) -> Seq<(Seq<char>, Seq<char>, Seq<char>)> {
    Seq::new(v.len(), |i: int| (v[i].field@, v[i].code@, v[i].message@))
}

/// The failed check `code` of `field`, with its `message`, if `ok` is false; nothing
/// otherwise.
pub open spec fn check(ok: bool, field: Seq<char>, code: Seq<char>, message: Seq<char>) -> Seq<(Seq<char>, Seq<char>, Seq<char>)> {
    if ok {
        seq![]
    } else {
        seq![(field, code, message)]
    }
}

/// Whether `s` has between `min` and `max` characters (as the `length` validator counts).
pub open spec fn length_within(s: Seq<char>, min: nat, max: nat) -> bool {
    min <= s.len() <= max
}

/// Whether `c` is a lower-case ASCII letter, a digit or `-`.
pub open spec fn is_slug_char(c: char) -> bool {
    ('a' <= c && c <= 'z') || ('0' <= c && c <= '9') || c == '-'
}

/// Whether `s` matches `^[a-z0-9-]+$`.
pub open spec fn is_slug(s: Seq<char>) -> bool {
    s.len() > 0 && forall|i: int| 0 <= i < s.len() ==> is_slug_char(#[trigger] s[i])
}

/// What the validator crate's `validate_email` answers for an address (the HTML5 rules, with
/// internationalized domains).
pub uninterp spec fn valid_email(s: Seq<char>) -> bool;

/// The validator crate's `validate_email`. Claimed: the result is named [`valid_email`].
#[verifier::external_body]
pub(crate) fn email_is_valid(s: &str) -> (r: bool)
    ensures
        r == valid_email(s@),
{
    validator::validate_email(s)
}

/// Whether `s` has between `min` and `max` characters.
pub fn length_ok(s: &str, min: usize, max: usize) -> (r: bool)
    ensures
        r == length_within(s@, min as nat, max as nat),
{
    let v = chars_of(s);
    min <= v.len() && v.len() <= max
}

/// Whether `s` is a slug: one or more lower-case ASCII letters, digits or hyphens.
pub fn slug_ok(s: &str) -> (r: bool)
    ensures
        r == is_slug(s@),
{
    let v = chars_of(s);
    if v.len() == 0 {
        return false;
    }
    let mut i: usize = 0;
    while i < v.len()
        invariant
            i <= v.len(),
            v@ == s@,
            forall|k: int| 0 <= k < i ==> is_slug_char(#[trigger] v@[k]),
        decreases v.len() - i,
    {
        let c = v[i];
        if !(('a' <= c && c <= 'z') || ('0' <= c && c <= '9') || c == '-') {
            return false;
        }
        i += 1;
    }
    true
}

/// Appends the failed check `code` of `field`, with its `message`, when `ok` is false.
pub fn note(errors: &mut Vec<FieldError>, ok: bool, field: &str, code: &str, message: &str)
    ensures
        field_errors_view(final(errors)@) == field_errors_view(old(errors)@) + check(ok, field@, code@, message@),
{
    let ghost before = errors@;
    if !ok {
        errors.push(FieldError { field: field.to_owned(), code: code.to_owned(), message: message.to_owned() });
        assert(field_errors_view(errors@) =~= field_errors_view(before) + check(ok, field@, code@, message@));
    } else {
        assert(field_errors_view(errors@) =~= field_errors_view(before) + check(ok, field@, code@, message@));
    }
}

/// `Ok` when no check failed, the failed checks otherwise.
pub fn finish(errors: Vec<FieldError>) -> (r: Result<(), ValidationErrors>)
    ensures
        r is Ok <==> errors@.len() == 0,
        r matches Err(e) ==> e.errors@ == errors@,
{
    if errors.len() == 0 {
        Ok(())
    } else {
        Err(ValidationErrors { errors })
    }
}

} // verus!
