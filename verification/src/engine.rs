//! The page engine's own logic: splitting a component file into script and
//! template, layouts and views, masking, validation, and the helpers that
//! page scripts call.

use vstd::prelude::*;
use sha2::Digest;
use crate::config::{join_path, path_join};
use crate::router::{opt_view, pair_views};
use crate::text::{
    all_ascii, all_digits, ascii_alnum, ascii_lower_char, digits_value, is_digit, unsigned_value,
    alphanumeric, chars_of, concat_str, contains_seq, find, first_occurrence, has_char, has_prefix,
    hex_digit, is_alnum, join_chars, join_spec, lemma_lex_irreflexive, lemma_lex_total,
    lemma_lex_transitive, lex_less, lex_lt, lowercase, nat_decimal, nonempty_pieces,
    split_nonempty, to_lower,
    occurs_at, parse_usize, parse_usize_spec, push_all, push_decimal, replace_all, replace_spec,
    slice, split_all, split_pieces, starts_with, string_of, trim_chars, trim_spec,
    trim_start_chars, trim_start_spec, utf8_len, views_of,
};
use crate::value::{value_text, Value};

verus! {

/// The script and template parts of a component file. An API component is
/// all script. Otherwise a file that (after leading whitespace) opens with
/// `---` and has a closing `---` is split there: the script between the
/// fences, trimmed, and the template after the closing fence, without
/// leading whitespace. Any other file is all template.
pub open spec fn split_component(content: Seq<char>, is_api: bool) -> (Option<Seq<char>>, Option<Seq<char>>) {
    let t = trim_start_spec(content);
    if is_api {
        (Some(content), None)
    } else if has_prefix(t, "---"@) {
        let after = t.skip(3);
        match first_occurrence(after, "---"@) {
            Some(e) => (Some(trim_spec(after.take(e))), Some(trim_start_spec(after.skip(e + 3)))),
            None => (None, Some(content)),
        }
    } else {
        (None, Some(content))
    }
}

proof fn lemma_first_occurrence(s: Seq<char>, p: Seq<char>, i: int)
    requires
        occurs_at(s, p, i),
        forall|j: int| 0 <= j < i ==> !occurs_at(s, p, j),
    ensures
        first_occurrence(s, p) == Some(i),
{
    assert(contains_seq(s, p));
    let c = choose|c: int| occurs_at(s, p, c) && forall|j: int| 0 <= j < c ==> !occurs_at(s, p, j);
    assert(occurs_at(s, p, c));
    if c < i {
        assert(!occurs_at(s, p, c));
    }
    if c > i {
        assert(!occurs_at(s, p, i));
    }
}

/// Splits a component file into its script and template parts.
pub fn parse_titanium_file(content: &str, is_api: bool) -> (r: (Option<String>, Option<String>))
    ensures
        (opt_view(r.0), opt_view(r.1)) == split_component(content@, is_api),
{
    if is_api {
        return (Some(content.to_owned()), None);
    }
    let all = chars_of(content);
    let trimmed = trim_start_chars(&all);
    let fence = chars_of("---");
    proof {
        reveal_strlit("---");
    }
    if starts_with(&trimmed, &fence) {
        let after = slice(&trimmed, 3, trimmed.len());
        assert(after@ =~= trimmed@.skip(3));
        match find(&after, &fence) {
            Some(e) => {
                proof {
                    lemma_first_occurrence(after@, fence@, e as int);
                }
                let head = slice(&after, 0, e);
                assert(head@ =~= after@.take(e as int));
                let script = trim_chars(&head);
                let tail = slice(&after, e + 3, after.len());
                assert(tail@ =~= after@.skip(e + 3));
                let template = trim_start_chars(&tail);
                return (Some(string_of(&script)), Some(string_of(&template)));
            },
            None => {},
        }
    }
    (None, Some(content.to_owned()))
}

/// `text` with all but its last `keep_last` characters replaced by `•`.
pub open spec fn mask_spec(text: Seq<char>, keep_last: nat) -> Seq<char> {
    if text.len() <= keep_last {
        text
    } else {
        Seq::new((text.len() - keep_last) as nat, |i: int| '•') + text.skip(text.len() - keep_last)
    }
}

/// Masks all but the last `keep_last` characters of `text` with `•`.
pub fn mask_string(text: &str, keep_last: usize) -> (r: String)
    ensures
        r@ == mask_spec(text@, keep_last as nat),
{
    let cs = chars_of(text);
    if cs.len() <= keep_last {
        return text.to_owned();
    }
    let mask_len = cs.len() - keep_last;
    let mut out: Vec<char> = Vec::new();
    let mut i: usize = 0;
    while i < mask_len
        invariant
            i <= mask_len,
            out@ == Seq::new(i as nat, |j: int| '•'),
        decreases mask_len - i,
    {
        out.push('•');
        i = i + 1;
        assert(out@ =~= Seq::new(i as nat, |j: int| '•'));
    }
    let visible = slice(&cs, mask_len, cs.len());
    push_all(&mut out, &visible);
    assert(out@ =~= mask_spec(text@, keep_last as nat));
    string_of(&out)
}

/// A template's layout source: `<slot />` and `<slot></slot>` become the
/// content placeholder `{{ content | safe }}`.
pub open spec fn layout_source_spec(t: Seq<char>) -> Seq<char> {
    replace_spec(
        replace_spec(t, "<slot />"@, "{{ content | safe }}"@),
        "<slot></slot>"@,
        "{{ content | safe }}"@,
    )
}

/// Turns a layout template's slot tags into the content placeholder.
pub fn layout_source(template: &str) -> (r: String)
    ensures
        r@ == layout_source_spec(template@),
{
    let t = chars_of(template);
    let slot1 = chars_of("<slot />");
    let slot2 = chars_of("<slot></slot>");
    let content = chars_of("{{ content | safe }}");
    proof {
        reveal_strlit("<slot />");
        reveal_strlit("<slot></slot>");
    }
    let a = replace_all(&t, &slot1, &content);
    let b = replace_all(&a, &slot2, &content);
    string_of(&b)
}

/// Whether a rendered page gets wrapped in a layout: unless layouts are
/// switched off (`"none"`) or the page is already a full HTML document.
pub open spec fn wraps_in_layout(layout_choice: Option<Seq<char>>, rendered: Seq<char>) -> bool {
    layout_choice != Some("none"@) && !contains_seq(rendered, "<!DOCTYPE html>"@)
}

/// Decides whether the rendered page is wrapped in a layout.
pub fn should_wrap_layout(layout_choice: &Option<String>, rendered: &str) -> (b: bool)
    ensures
        b == wraps_in_layout(opt_view(*layout_choice), rendered@),
{
    let none = chars_of("none");
    let none_is = match layout_choice {
        Some(c) => crate::text::str_eq_chars(c.as_str(), &none),
        None => false,
    };
    let r = chars_of(rendered);
    let doctype = chars_of("<!DOCTYPE html>");
    !none_is && !crate::text::contains(&r, &doctype)
}

} // verus!

verus! {

/// The value under `key` among an object's entries (the first entry with
/// that key).
pub open spec fn entry_value(entries: Seq<(String, Value)>, key: Seq<char>) -> Option<Value>
    decreases entries.len(),
{
    if entries.len() == 0 {
        None
    } else if entries[0].0@ == key {
        Some(entries[0].1)
    } else {
        entry_value(entries.skip(1), key)
    }
}

proof fn lemma_entry_value(entries: Seq<(String, Value)>, key: Seq<char>, i: int)
    requires
        0 <= i <= entries.len(),
        forall|j: int| 0 <= j < i ==> entries[j].0@ != key,
        i < entries.len() ==> entries[i].0@ == key,
    ensures
        entry_value(entries, key) == if i < entries.len() {
            Some(entries[i].1)
        } else {
            None
        },
    decreases i,
{
    if i > 0 {
        lemma_entry_value(entries.skip(1), key, i - 1);
    }
}

/// The index of the first entry with key `key`.
pub fn find_entry(entries: &Vec<(String, Value)>, key: &str) -> (r: Option<usize>)
    ensures
        match r {
            Some(i) => i < entries@.len() && entries@[i as int].0@ == key@ && entry_value(
                entries@,
                key@,
            ) == Some(entries@[i as int].1),
            None => entry_value(entries@, key@) is None,
        },
{
    let k = chars_of(key);
    let mut i: usize = 0;
    while i < entries.len()
        invariant
            i <= entries.len(),
            k@ == key@,
            forall|j: int| 0 <= j < i ==> entries@[j].0@ != key@,
        decreases entries.len() - i,
    {
        if crate::text::str_eq_chars(entries[i].0.as_str(), &k) {
            proof {
                lemma_entry_value(entries@, key@, i as int);
            }
            return Some(i);
        }
        i = i + 1;
    }
    proof {
        lemma_entry_value(entries@, key@, i as int);
    }
    None
}

/// The length of a string in bytes, as `str::len` reports it.
pub open spec fn byte_len(s: Seq<char>) -> usize {
    utf8_len(s) as usize
}

/// The message of one validation rule for a field, if the rule fails.
pub open spec fn rule_error(field: Seq<char>, rule: Seq<char>, is_empty: bool, val: Seq<char>) -> Option<Seq<char>> {
    if rule == "required"@ {
        if is_empty {
            Some(field + " is required"@)
        } else {
            None
        }
    } else if rule == "email"@ && !is_empty {
        if !val.contains('@') || !val.contains('.') {
            Some(field + " must be a valid email"@)
        } else {
            None
        }
    } else if has_prefix(rule, "min:"@) && !is_empty {
        match parse_usize_spec(rule.skip(4)) {
            Some(n) => if byte_len(val) < n {
                Some(field + " must be at least "@ + nat_decimal(n as nat) + " characters"@)
            } else {
                None
            },
            None => None,
        }
    } else if has_prefix(rule, "max:"@) && !is_empty {
        match parse_usize_spec(rule.skip(4)) {
            Some(n) => if byte_len(val) > n {
                Some(field + " must not exceed "@ + nat_decimal(n as nat) + " characters"@)
            } else {
                None
            },
            None => None,
        }
    } else {
        None
    }
}

/// The first failing rule's message, trying the `|`-separated rules in order.
pub open spec fn pieces_error(field: Seq<char>, pieces: Seq<Seq<char>>, is_empty: bool, val: Seq<char>) -> Option<Seq<char>>
    decreases pieces.len(),
{
    if pieces.len() == 0 {
        None
    } else {
        match rule_error(field, trim_spec(pieces[0]), is_empty, val) {
            Some(e) => Some(e),
            None => pieces_error(field, pieces.skip(1), is_empty, val),
        }
    }
}

/// The text of the field's value (empty when the field is missing).
pub open spec fn field_text(data: Seq<(String, Value)>, field: Seq<char>) -> Seq<char> {
    match entry_value(data, field) {
        Some(v) => value_text(v),
        None => Seq::empty(),
    }
}

/// Whether the field is missing, unit, or blank.
pub open spec fn field_is_empty(data: Seq<(String, Value)>, field: Seq<char>) -> bool {
    match entry_value(data, field) {
        Some(v) => v is Unit || trim_spec(value_text(v)).len() == 0,
        None => true,
    }
}

/// The message for one field under its rules, if some rule fails.
pub open spec fn field_error(data: Seq<(String, Value)>, field: Seq<char>, rules: Value) -> Option<Seq<char>> {
    pieces_error(
        field,
        split_pieces(value_text(rules), '|'),
        field_is_empty(data, field),
        field_text(data, field),
    )
}

/// The failing fields and their messages, in the order of the rules.
pub open spec fn validation_errors(data: Seq<(String, Value)>, rules: Seq<(String, Value)>) -> Seq<(Seq<char>, Seq<char>)>
    decreases rules.len(),
{
    if rules.len() == 0 {
        Seq::empty()
    } else {
        let rest = validation_errors(data, rules.skip(1));
        match field_error(data, rules[0].0@, rules[0].1) {
            Some(m) => seq![(rules[0].0@, m)] + rest,
            None => rest,
        }
    }
}

/// The `required` and `email` rules: `required` fails exactly on an empty
/// value, with `<field> is required`; on a non-empty value, `email` fails
/// exactly when the value lacks an `@` or lacks a `.`, with `<field> must be
/// a valid email`, so `ann.example.com` (no `@`) and `ann@example` (no `.`)
/// both fail and `ann@example.com` passes; neither rule checks an empty
/// value's form.
pub proof fn law_required_and_email_rules(field: Seq<char>, val: Seq<char>, is_empty: bool)
    ensures
        rule_error(field, "required"@, is_empty, val) == if is_empty {
            Some(field + " is required"@)
        } else {
            None::<Seq<char>>
        },
        !is_empty && !val.contains('@') ==> rule_error(field, "email"@, is_empty, val) == Some(
            field + " must be a valid email"@,
        ),
        !is_empty && !val.contains('.') ==> rule_error(field, "email"@, is_empty, val) == Some(
            field + " must be a valid email"@,
        ),
        !is_empty && val.contains('@') && val.contains('.') ==> rule_error(field, "email"@, is_empty, val)
            is None,
        is_empty ==> rule_error(field, "email"@, is_empty, val) is None,
{
    assert("email"@ != "required"@) by {
        reveal_strlit("email");
        reveal_strlit("required");
    }
    assert(!has_prefix("email"@, "min:"@) && !has_prefix("email"@, "max:"@)) by {
        reveal_strlit("email");
        reveal_strlit("min:");
        reveal_strlit("max:");
        assert("email"@[0] != "min:"@[0]);
        assert("email"@[0] != "max:"@[0]);
    }
}

/// The length rules on a non-empty value, for a rule `min:N` or `max:N`
/// whose number reads as `n`: `min` fails exactly when the value has fewer
/// than `n` bytes, with `<field> must be at least n characters`; `max`
/// fails exactly when it has more than `n` bytes, with `<field> must not
/// exceed n characters`. A rule whose number does not read, an empty value,
/// and any rule other than `required`, `email`, `min:` and `max:` never
/// fail.
pub proof fn law_length_rules(field: Seq<char>, rule: Seq<char>, val: Seq<char>, is_empty: bool, n: usize)
    ensures
        has_prefix(rule, "min:"@) && parse_usize_spec(rule.skip(4)) == Some(n) && !is_empty ==> rule_error(
            field,
            rule,
            is_empty,
            val,
        ) == if byte_len(val) < n {
            Some(field + " must be at least "@ + nat_decimal(n as nat) + " characters"@)
        } else {
            None::<Seq<char>>
        },
        has_prefix(rule, "max:"@) && parse_usize_spec(rule.skip(4)) == Some(n) && !is_empty ==> rule_error(
            field,
            rule,
            is_empty,
            val,
        ) == if byte_len(val) > n {
            Some(field + " must not exceed "@ + nat_decimal(n as nat) + " characters"@)
        } else {
            None::<Seq<char>>
        },
        (has_prefix(rule, "min:"@) || has_prefix(rule, "max:"@)) && parse_usize_spec(rule.skip(4))
            is None ==> rule_error(field, rule, is_empty, val) is None,
        rule != "required"@ && is_empty ==> rule_error(field, rule, is_empty, val) is None,
        rule != "required"@ && rule != "email"@ && !has_prefix(rule, "min:"@) && !has_prefix(
            rule,
            "max:"@,
        ) ==> rule_error(field, rule, is_empty, val) is None,
{
    reveal_strlit("min:");
    reveal_strlit("max:");
    reveal_strlit("email");
    reveal_strlit("required");
    if has_prefix(rule, "min:"@) || has_prefix(rule, "max:"@) {
        if has_prefix(rule, "min:"@) {
            assert(rule[0] == rule.take(4)[0]);
        } else {
            assert(rule[0] == rule.take(4)[0]);
        }
        assert(rule[0] == 'm');
        assert(rule != "required"@ && rule != "email"@) by {
            assert("required"@[0] == 'r');
            assert("email"@[0] == 'e');
        }
        if has_prefix(rule, "max:"@) {
            assert(!has_prefix(rule, "min:"@)) by {
                assert(rule[1] == rule.take(4)[1]);
                assert(rule[1] == 'a');
            }
        }
    }
}

/// A field's message comes from its first failing rule: when the rules
/// before the `k`-th (trimmed) all pass and the `k`-th fails, the field's
/// error is that rule's message, whatever the later rules say.
pub proof fn law_first_failing_rule(field: Seq<char>, pieces: Seq<Seq<char>>, is_empty: bool, val: Seq<char>, k: int)
    requires
        0 <= k < pieces.len(),
        forall|j: int| 0 <= j < k ==> rule_error(field, trim_spec(#[trigger] pieces[j]), is_empty, val) is None,
        rule_error(field, trim_spec(pieces[k]), is_empty, val) is Some,
    ensures
        pieces_error(field, pieces, is_empty, val) == rule_error(field, trim_spec(pieces[k]), is_empty, val),
    decreases k,
{
    if k > 0 {
        let rest = pieces.skip(1);
        assert forall|j: int| 0 <= j < k - 1 implies rule_error(field, trim_spec(#[trigger] rest[j]), is_empty, val)
            is None by {
            assert(rest[j] == pieces[j + 1]);
        }
        assert(rest[k - 1] == pieces[k]);
        assert(rule_error(field, trim_spec(pieces[0]), is_empty, val) is None);
        law_first_failing_rule(field, rest, is_empty, val, k - 1);
    }
}

/// The outcome of validating form data.
pub struct ValidationResult {
    pub is_valid: bool,
    /// Each failing field with its message, in the order of the rules.
    pub errors: Vec<(String, String)>,
}

fn rule_error_exec(field: &str, rule: &Vec<char>, is_empty: bool, val: &str) -> (r: Option<String>)
    ensures
        opt_view(r) == rule_error(field@, rule@, is_empty, val@),
{
    proof {
        reveal_strlit("min:");
        reveal_strlit("max:");
    }
    if crate::text::str_eq_chars("required", rule) {
        if is_empty {
            return Some(concat_str(field, " is required"));
        }
        return None;
    }
    let vc = chars_of(val);
    if crate::text::str_eq_chars("email", rule) && !is_empty {
        if !has_char(&vc, '@') || !has_char(&vc, '.') {
            return Some(concat_str(field, " must be a valid email"));
        }
        return None;
    }
    let min = chars_of("min:");
    let max = chars_of("max:");
    let is_min = starts_with(rule, &min);
    let is_max = starts_with(rule, &max);
    if (is_min || is_max) && !is_empty {
        let rest = slice(rule, 4, rule.len());
        assert(rest@ =~= rule@.skip(4));
        match parse_usize(&rest) {
            Some(n) => {
                let len = val.len();
                let fails = if is_min {
                    len < n
                } else {
                    len > n
                };
                if fails {
                    let mut out = chars_of(field);
                    let middle = if is_min {
                        " must be at least "
                    } else {
                        " must not exceed "
                    };
                    push_all(&mut out, &chars_of(middle));
                    push_decimal(&mut out, n as u64);
                    push_all(&mut out, &chars_of(" characters"));
                    proof {
                        if is_min {
                            assert(out@ =~= field@ + " must be at least "@ + nat_decimal(n as nat) + " characters"@);
                        } else {
                            assert(!has_prefix(rule@, "min:"@));
                            assert(out@ =~= field@ + " must not exceed "@ + nat_decimal(n as nat) + " characters"@);
                        }
                    }
                    return Some(string_of(&out));
                }
                proof {
                    if !is_min {
                        assert(!has_prefix(rule@, "min:"@));
                    }
                }
                return None;
            },
            None => {
                return None;
            },
        }
    }
    None
}

/// Checks form data against rules. Each rule value is a `|`-separated list
/// of `required`, `email`, `min:N` and `max:N` (N in bytes); the first failing
/// rule of a field gives its message.
pub fn run_validation(data: &Vec<(String, Value)>, rules: &Vec<(String, Value)>) -> (r: ValidationResult)
    ensures
        pair_views(r.errors@) == validation_errors(data@, rules@),
        r.is_valid == (r.errors@.len() == 0),
{
    let mut errors: Vec<(String, String)> = Vec::new();
    let mut i: usize = 0;
    assert(rules@.skip(0) =~= rules@);
    while i < rules.len()
        invariant
            i <= rules.len(),
            pair_views(errors@) + validation_errors(data@, rules@.skip(i as int)) == validation_errors(data@, rules@),
        decreases rules.len() - i,
    {
        let field = &rules[i].0;
        let ghost fv = field@;
        let rule_text = rules[i].1.to_text();
        let (val_str, present, is_unit) = match find_entry(data, field.as_str()) {
            Some(j) => (data[j].1.to_text(), true, data[j].1.is_unit()),
            None => (String::new(), false, false),
        };
        let vcs = chars_of(val_str.as_str());
        let trimmed = trim_chars(&vcs);
        let is_empty = !present || is_unit || trimmed.len() == 0;
        assert(is_empty == field_is_empty(data@, fv));
        assert(val_str@ == field_text(data@, fv));
        let rc = chars_of(rule_text.as_str());
        let pieces = split_all(&rc, '|');
        let mut found: Option<String> = None;
        let mut searching = true;
        let mut k: usize = 0;
        let ghost ps = split_pieces(rule_text@, '|');
        assert(ps.skip(0) =~= ps);
        while searching && k < pieces.len()
            invariant
                k <= pieces.len(),
                views_of(pieces@) == ps,
                fv == field@,
                searching ==> found is None,
                searching ==> pieces_error(fv, ps.skip(k as int), is_empty, val_str@) == pieces_error(fv, ps, is_empty, val_str@),
                !searching ==> opt_view(found) == pieces_error(fv, ps, is_empty, val_str@) && found is Some,
            decreases pieces.len() - k,
        {
            let piece = trim_chars(&pieces[k]);
            assert(pieces@[k as int]@ == ps[k as int]);
            assert(ps.skip(k as int)[0] == ps[k as int]);
            assert(ps.skip(k as int).skip(1) =~= ps.skip(k + 1));
            assert(piece@ == trim_spec(ps.skip(k as int)[0]));
            match rule_error_exec(field.as_str(), &piece, is_empty, val_str.as_str()) {
                Some(e) => {
                    assert(ps.skip(k as int).len() > 0);
                    assert(rule_error(fv, trim_spec(ps.skip(k as int)[0]), is_empty, val_str@) == Some(e@));
                    assert(pieces_error(fv, ps.skip(k as int), is_empty, val_str@) == Some(e@));
                    found = Some(e);
                    searching = false;
                },
                None => {},
            }
            k = k + 1;
        }
        proof {
            if searching {
                assert(ps.skip(k as int).len() == 0);
            }
        }
        assert(opt_view(found) == field_error(data@, fv, rules@[i as int].1));
        let ghost rest = rules@.skip(i as int);
        assert(rest[0] == rules@[i as int]);
        assert(rest.skip(1) =~= rules@.skip(i + 1));
        match found {
            Some(m) => {
                let ghost before = errors@;
                errors.push((field.clone(), m));
                assert(pair_views(errors@) =~= pair_views(before).push((fv, m@)));
                assert(pair_views(errors@) + validation_errors(data@, rules@.skip(i + 1)) =~= pair_views(before) + validation_errors(data@, rest));
            },
            None => {},
        }
        i = i + 1;
    }
    assert(pair_views(errors@) + Seq::<(Seq<char>, Seq<char>)>::empty() =~= pair_views(errors@));
    let is_valid = errors.len() == 0;
    ValidationResult { is_valid, errors }
}

} // verus!

verus! {

/// The slug of a text: lowercased, every non-alphanumeric character made a
/// `-`, and the non-empty runs joined by single dashes.
pub open spec fn slug_spec(text: Seq<char>) -> Seq<char> {
    let l = lowercase(text);
    let m = Seq::new(l.len(), |i: int| if alphanumeric(l[i]) { l[i] } else { '-' });
    join_spec(nonempty_pieces(m, '-'), seq!['-'])
}

/// The slug of an ASCII text: ASCII letters lowercased, digits kept, every
/// other character made a `-`, and the non-empty runs joined by single
/// dashes.
pub open spec fn ascii_slug_spec(text: Seq<char>) -> Seq<char> {
    let m = Seq::new(
        text.len(),
        |i: int|
            if ascii_alnum(ascii_lower_char(text[i])) {
                ascii_lower_char(text[i])
            } else {
                '-'
            },
    );
    join_spec(nonempty_pieces(m, '-'), seq!['-'])
}

/// The URL slug of a text (`str_slug` and the `slugify` filter).
pub fn str_slug(text: &str) -> (r: String)
    ensures
        r@ == slug_spec(text@),
        all_ascii(text@) ==> r@ == ascii_slug_spec(text@),
{
    let lower = to_lower(text);
    let l = chars_of(lower.as_str());
    let ghost t = text@;
    let mut m: Vec<char> = Vec::new();
    let mut i: usize = 0;
    while i < l.len()
        invariant
            i <= l.len(),
            l@ == lowercase(t),
            all_ascii(t) ==> l@ == Seq::new(t.len(), |j: int| ascii_lower_char(t[j])),
            m@ == Seq::new(l@.len(), |j: int| if alphanumeric(l@[j]) { l@[j] } else { '-' }).take(i as int),
            all_ascii(t) ==> m@ == Seq::new(
                t.len(),
                |j: int|
                    if ascii_alnum(ascii_lower_char(t[j])) {
                        ascii_lower_char(t[j])
                    } else {
                        '-'
                    },
            ).take(i as int),
        decreases l.len() - i,
    {
        proof {
            if all_ascii(t) {
                assert((t[i as int] as u32) < 128);
                assert((l@[i as int] as u32) < 128);
            }
        }
        if is_alnum(l[i]) {
            m.push(l[i]);
        } else {
            m.push('-');
        }
        i = i + 1;
        assert(m@ =~= Seq::new(l@.len(), |j: int| if alphanumeric(l@[j]) { l@[j] } else { '-' }).take(i as int));
        proof {
            if all_ascii(t) {
                assert(m@ =~= Seq::new(
                    t.len(),
                    |j: int|
                        if ascii_alnum(ascii_lower_char(t[j])) {
                            ascii_lower_char(t[j])
                        } else {
                            '-'
                        },
                ).take(i as int));
            }
        }
    }
    assert(m@ =~= Seq::new(l@.len(), |j: int| if alphanumeric(l@[j]) { l@[j] } else { '-' }));
    proof {
        if all_ascii(t) {
            assert(m@ =~= Seq::new(
                t.len(),
                |j: int|
                    if ascii_alnum(ascii_lower_char(t[j])) {
                        ascii_lower_char(t[j])
                    } else {
                        '-'
                    },
            ));
        }
    }
    let pieces = split_nonempty(&m, '-');
    let mut dash: Vec<char> = Vec::new();
    dash.push('-');
    let joined = join_chars(&pieces, &dash);
    assert(dash@ =~= seq!['-']);
    string_of(&joined)
}

/// One server-sent event frame.
pub open spec fn sse_frame_spec(name: Seq<char>, data: Seq<char>) -> Seq<char> {
    "event: "@ + name + "\ndata: "@ + data + "\n\n"@
}

/// Formats one server-sent event: its name and its data text.
pub fn sse_event(event_name: &str, data: &str) -> (r: String)
    ensures
        r@ == sse_frame_spec(event_name@, data@),
{
    let mut out = chars_of("event: ");
    push_all(&mut out, &chars_of(event_name));
    push_all(&mut out, &chars_of("\ndata: "));
    push_all(&mut out, &chars_of(data));
    push_all(&mut out, &chars_of("\n\n"));
    assert(out@ =~= sse_frame_spec(event_name@, data@));
    string_of(&out)
}

/// An event of a stream: its name, if the script gave one, and its data
/// text.
pub struct SseEvent {
    pub name: Option<String>,
    pub data: String,
}

/// The frames of a stream, unnamed events being called `message`.
pub open spec fn sse_stream_spec(events: Seq<SseEvent>) -> Seq<char>
    decreases events.len(),
{
    if events.len() == 0 {
        Seq::empty()
    } else {
        let e = events.last();
        let name = match e.name {
            Some(n) => n@,
            None => "message"@,
        };
        sse_stream_spec(events.drop_last()) + sse_frame_spec(name, e.data@)
    }
}

/// Formats a stream of server-sent events.
pub fn sse_stream(events: &Vec<SseEvent>) -> (r: String)
    ensures
        r@ == sse_stream_spec(events@),
{
    let mut out: Vec<char> = Vec::new();
    let mut i: usize = 0;
    while i < events.len()
        invariant
            i <= events.len(),
            out@ == sse_stream_spec(events@.take(i as int)),
        decreases events.len() - i,
    {
        let ghost t = events@.take(i + 1);
        assert(t.drop_last() =~= events@.take(i as int));
        let frame = match &events[i].name {
            Some(n) => sse_event(n.as_str(), events[i].data.as_str()),
            None => sse_event("message", events[i].data.as_str()),
        };
        push_all(&mut out, &chars_of(frame.as_str()));
        i = i + 1;
    }
    assert(events@.take(i as int) =~= events@);
    string_of(&out)
}

/// The SHA-256 digest of a byte sequence.
pub uninterp spec fn sha256(data: Seq<u8>) -> Seq<u8>;

/// Calls `sha2::Sha256::digest`. The digest is named, and is 32 bytes long.
#[verifier::external_body]
fn sha256_digest(data: &[u8]) -> (r: Vec<u8>)
    ensures
        r@ == sha256(data@),
        r@.len() == 32,
{
    sha2::Sha256::digest(data).to_vec()
}

/// Two lowercase hex digits per byte.
pub open spec fn bytes_hex(b: Seq<u8>) -> Seq<char>
    decreases b.len(),
{
    if b.len() == 0 {
        Seq::empty()
    } else {
        bytes_hex(b.drop_last()) + seq![hex_digit((b.last() / 16) as nat), hex_digit((b.last() % 16) as nat)]
    }
}

/// The lowercase hex SHA-256 of the UTF-8 bytes of a text.
pub open spec fn crypto_hash_spec(text: Seq<char>) -> Seq<char> {
    bytes_hex(sha256(vstd::utf8::encode_utf8(text)))
}

fn hex_digit_char(d: u8) -> (c: char)
    requires
        d < 16,
    ensures
        c == hex_digit(d as nat),
{
    if d < 10 {
        (48u8 + d) as char
    } else {
        (87u8 + d) as char
    }
}

/// The lowercase hex SHA-256 of a text (`crypto_hash`).
pub fn crypto_hash(text: &str) -> (r: String)
    ensures
        r@ == crypto_hash_spec(text@),
        r@.len() == 64,
{
    let digest = sha256_digest(text.as_bytes());
    let mut out: Vec<char> = Vec::new();
    let mut i: usize = 0;
    while i < digest.len()
        invariant
            i <= digest.len(),
            out@ == bytes_hex(digest@.take(i as int)),
        decreases digest.len() - i,
    {
        let b = digest[i];
        assert(digest@.take(i + 1).drop_last() =~= digest@.take(i as int));
        out.push(hex_digit_char(b / 16));
        out.push(hex_digit_char(b % 16));
        i = i + 1;
    }
    assert(digest@.take(i as int) =~= digest@);
    proof {
        lemma_bytes_hex_len(digest@);
    }
    string_of(&out)
}

/// Whether a text hashes to the expected lowercase hex digest
/// (`crypto_verify`).
pub fn crypto_verify(text: &str, expected_hash: &str) -> (b: bool)
    ensures
        b == (crypto_hash_spec(text@) == expected_hash@),
{
    let computed = crypto_hash(text);
    let e = chars_of(expected_hash);
    crate::text::str_eq_chars(computed.as_str(), &e)
}

/// The token character for one generated byte: a digit, a lowercase or an
/// uppercase letter, by the byte's residue modulo 62.
pub open spec fn token_char(byte: u8) -> char {
    let r = byte % 62;
    if r <= 9 {
        (48 + byte % 10) as char
    } else if r <= 35 {
        (97 + byte % 26) as char
    } else {
        (65 + byte % 26) as char
    }
}

/// The next state of the token generator.
pub open spec fn lcg_next(seed: u128) -> u128 {
    ((seed as nat * 6364136223846793005nat + 1442695040888963407nat) % 0x1_0000_0000_0000_0000_0000_0000_0000_0000nat) as u128
}

/// The generator state after `n` steps.
pub open spec fn lcg_state(seed: u128, n: nat) -> u128
    decreases n,
{
    if n == 0 {
        seed
    } else {
        lcg_next(lcg_state(seed, (n - 1) as nat))
    }
}

/// The first `n` token characters generated from `seed`.
pub open spec fn token_spec(seed: u128, n: nat) -> Seq<char>
    decreases n,
{
    if n == 0 {
        Seq::empty()
    } else {
        token_spec(seed, (n - 1) as nat).push(token_char((lcg_state(seed, n) >> 32) as u8))
    }
}

fn lcg_step(state: u128) -> (r: u128)
    ensures
        r == lcg_next(state),
{
    state.wrapping_mul(6364136223846793005).wrapping_add(1442695040888963407)
}

fn token_char_of(byte: u8) -> (c: char)
    ensures
        c == token_char(byte),
{
    let r = byte % 62;
    if r <= 9 {
        (48u8 + (byte % 10)) as char
    } else if r <= 35 {
        (97u8 + (byte % 26)) as char
    } else {
        (65u8 + (byte % 26)) as char
    }
}

/// The token length: `len`, or 32 when `len` is not positive.
pub open spec fn token_len(len: i64) -> nat {
    if len <= 0 {
        32
    } else {
        (len as usize) as nat
    }
}

/// An alphanumeric token of `len` characters (32 when `len` is not
/// positive), generated from `seed` (the caller passes the clock reading in
/// nanoseconds).
pub fn crypto_random_token(len: i64, seed: u128) -> (r: String)
    ensures
        r@ == token_spec(seed, token_len(len)),
{
    let count: usize = if len <= 0 {
        32
    } else {
        len as usize
    };
    let mut out: Vec<char> = Vec::new();
    let mut state = seed;
    let mut i: usize = 0;
    while i < count
        invariant
            i <= count,
            state == lcg_state(seed, i as nat),
            out@ == token_spec(seed, i as nat),
        decreases count - i,
    {
        state = lcg_step(state);
        let c = token_char_of((state >> 32) as u8);
        out.push(c);
        i = i + 1;
    }
    string_of(&out)
}

/// Whether a text is valid JSON (what `serde_json` accepts).
pub uninterp spec fn json_valid(s: Seq<char>) -> bool;

/// Calls `serde_json::from_str::<serde_json::Value>` and reports whether it
/// succeeded. The answer is named; empty text is not valid JSON.
#[verifier::external_body]
pub(crate) fn json_parses(s: &str) -> (b: bool)
    ensures
        b == json_valid(s@),
        s@.len() == 0 ==> !b,
{
    serde_json::from_str::<serde_json::Value>(s).is_ok()
}

/// Whether a text is valid JSON (`json_validate`).
pub fn json_validate(json_str: &str) -> (b: bool)
    ensures
        b == json_valid(json_str@),
{
    json_parses(json_str)
}

/// `val` limited to the range `min..=max`.
pub fn clamp(val: i64, min: i64, max: i64) -> (r: i64)
    requires
        min <= max,
    ensures
        r == if val < min {
            min
        } else if val > max {
            max
        } else {
            val
        },
{
    if val < min {
        min
    } else if val > max {
        max
    } else {
        val
    }
}

} // verus!

verus! {

/// The values under `key` of the items that are objects having that key,
/// in order (`array_pluck`).
pub open spec fn pluck_spec(items: Seq<Value>, key: Seq<char>) -> Seq<Value>
    decreases items.len(),
{
    if items.len() == 0 {
        Seq::empty()
    } else {
        let rest = pluck_spec(items.drop_last(), key);
        match items.last() {
            Value::Object(entries) => match entry_value(entries@, key) {
                Some(v) => rest.push(v),
                None => rest,
            },
            _ => rest,
        }
    }
}

/// Picks the value under `key` out of every object in `arr`.
pub fn array_pluck(arr: Vec<Value>, key: &str) -> (r: Vec<Value>)
    ensures
        r@ == pluck_spec(arr@, key@),
{
    let ghost all = arr@;
    let mut input = arr;
    let mut out: Vec<Value> = Vec::new();
    let ghost mut n: int = 0;
    while input.len() > 0
        invariant
            0 <= n,
            n + input@.len() == all.len(),
            input@ == all.skip(n as int),
            out@ == pluck_spec(all.take(n as int), key@),
        decreases input.len(),
    {
        let ghost before = input@;
        let item = input.remove(0);
        proof {
            assert(item == all[n as int]);
            assert(input@ =~= all.skip(n + 1));
            assert(all.take(n + 1).drop_last() =~= all.take(n as int));
        }
        match item {
            Value::Object(mut entries) => {
                match find_entry(&entries, key) {
                    Some(j) => {
                        let (_, v) = entries.remove(j);
                        out.push(v);
                    },
                    None => {},
                }
            },
            _ => {},
        }
        proof {
            n = n + 1;
        }
    }
    assert(all.take(n as int) =~= all);
    out
}

/// Consecutive chunks of `s` of `n` items, the last one shorter; all of `s`
/// in one chunk when `n` is zero.
pub open spec fn chunks_spec<T>(s: Seq<T>, n: nat) -> Seq<Seq<T>>
    decreases s.len(),
{
    if s.len() == 0 {
        Seq::empty()
    } else if n == 0 || s.len() <= n {
        seq![s]
    } else {
        seq![s.take(n as int)] + chunks_spec(s.skip(n as int), n)
    }
}

/// The contents of a sequence of vectors.
pub open spec fn vec_views<T>(v: Seq<Vec<T>>) -> Seq<Seq<T>> {
    Seq::new(v.len(), |i: int| v[i]@)
}

/// The chunk size for `array_chunk`: `size`, or 1 when it is not positive.
pub open spec fn chunk_size(size: i64) -> nat {
    if size <= 0 {
        1
    } else {
        (size as usize) as nat
    }
}

proof fn lemma_chunks_step<T>(cur: Seq<T>, x: T, rest: Seq<T>, n: nat)
    requires
        n > 0,
        cur.len() + 1 == n,
    ensures
        chunks_spec(cur + seq![x] + rest, n) == seq![cur.push(x)] + chunks_spec(rest, n),
{
    let s = cur + seq![x] + rest;
    assert(s.take(n as int) =~= cur.push(x));
    assert(s.skip(n as int) =~= rest);
    if rest.len() == 0 {
        assert(s =~= cur.push(x));
        assert(chunks_spec(rest, n) =~= Seq::<Seq<T>>::empty());
        assert(seq![cur.push(x)] + Seq::<Seq<T>>::empty() =~= seq![cur.push(x)]);
    }
}

/// Splits `arr` into chunks of `size` items (1 when `size` is not positive).
pub fn array_chunk(arr: Vec<Value>, size: i64) -> (r: Vec<Vec<Value>>)
    ensures
        vec_views(r@) == chunks_spec(arr@, chunk_size(size)),
{
    let n: usize = if size <= 0 {
        1
    } else {
        size as usize
    };
    let ghost all = arr@;
    let mut input = arr;
    if n == 0 {
        let mut out: Vec<Vec<Value>> = Vec::new();
        if input.len() > 0 {
            out.push(input);
            assert(vec_views(out@) =~= seq![all]);
        } else {
            assert(vec_views(out@) =~= Seq::<Seq<Value>>::empty());
        }
        return out;
    }
    let mut out: Vec<Vec<Value>> = Vec::new();
    let mut cur: Vec<Value> = Vec::new();
    assert(cur@ + input@ =~= all);
    assert(vec_views(out@) + chunks_spec(all, n as nat) =~= chunks_spec(all, n as nat));
    while input.len() > 0
        invariant
            n > 0,
            cur@.len() < n,
            vec_views(out@) + chunks_spec(cur@ + input@, n as nat) == chunks_spec(all, n as nat),
        decreases input.len(),
    {
        let ghost before_in = input@;
        let ghost before_cur = cur@;
        let x = input.remove(0);
        assert(before_in =~= seq![x] + input@);
        cur.push(x);
        if cur.len() == n {
            proof {
                lemma_chunks_step(before_cur, x, input@, n as nat);
                assert(before_cur + before_in =~= before_cur + seq![x] + input@);
            }
            let ghost ov = vec_views(out@);
            let mut full: Vec<Value> = Vec::new();
            std::mem::swap(&mut full, &mut cur);
            out.push(full);
            proof {
                assert(vec_views(out@) =~= ov.push(before_cur.push(x)));
                assert(cur@ + input@ =~= input@);
                assert(ov + (seq![before_cur.push(x)] + chunks_spec(input@, n as nat)) =~= vec_views(out@) + chunks_spec(input@, n as nat));
            }
        } else {
            assert(before_cur + before_in =~= cur@ + input@);
        }
    }
    assert(cur@ + input@ =~= cur@);
    if cur.len() > 0 {
        let ghost ov = vec_views(out@);
        let ghost cv = cur@;
        out.push(cur);
        assert(vec_views(out@) =~= ov.push(cv));
        assert(chunks_spec(cv, n as nat) == seq![cv]);
        assert(ov + seq![cv] =~= ov.push(cv));
    } else {
        assert(chunks_spec(cur@, n as nat) =~= Seq::<Seq<Value>>::empty());
        assert(vec_views(out@) + Seq::<Seq<Value>>::empty() =~= vec_views(out@));
    }
    out
}

} // verus!

verus! {

/// The group an item falls in: the text of its value under `key` when it is
/// an object with that key, otherwise `unknown`.
pub open spec fn group_key(item: Value, key: Seq<char>) -> Seq<char> {
    match item {
        Value::Object(entries) => match entry_value(entries@, key) {
            Some(v) => value_text(v),
            None => "unknown"@,
        },
        _ => "unknown"@,
    }
}

/// The predicate "falls in group `k`".
pub open spec fn in_group(k: Seq<char>, key: Seq<char>) -> spec_fn(Value) -> bool {
    |x: Value| group_key(x, key) == k
}

/// The contents of a list of groups.
pub open spec fn group_views(g: Seq<(String, Vec<Value>)>) -> Seq<(Seq<char>, Seq<Value>)> {
    Seq::new(g.len(), |i: int| (g[i].0@, g[i].1@))
}

/// `groups` groups `items` by `key`: group names strictly ascending, each
/// group holding exactly the items that fall in it, in their order, and
/// every item falling in some group.
pub open spec fn grouped(groups: Seq<(Seq<char>, Seq<Value>)>, items: Seq<Value>, key: Seq<char>) -> bool {
    &&& forall|i: int, j: int| 0 <= i < j < groups.len() ==> lex_lt(#[trigger] groups[i].0, #[trigger] groups[j].0)
    &&& forall|i: int| 0 <= i < groups.len() ==> #[trigger] groups[i].1 == items.filter(in_group(groups[i].0, key))
    &&& forall|x: int| 0 <= x < items.len() ==> exists|i: int| 0 <= i < groups.len() && #[trigger] groups[i].0 == group_key(#[trigger] items[x], key)
}

fn group_key_of(item: &Value, key: &str) -> (k: String)
    ensures
        k@ == group_key(*item, key@),
{
    match item {
        Value::Object(entries) => match find_entry(entries, key) {
            Some(j) => entries[j].1.to_text(),
            None => "unknown".to_owned(),
        },
        _ => "unknown".to_owned(),
    }
}

/// Groups the items by the text of their value under `key`
/// (`array_group_by`); groups are in ascending order of name.
pub fn array_group_by(arr: Vec<Value>, key: &str) -> (r: Vec<(String, Vec<Value>)>)
    ensures
        grouped(group_views(r@), arr@, key@),
{
    let ghost all = arr@;
    let mut input = arr;
    let mut groups: Vec<(String, Vec<Value>)> = Vec::new();
    let ghost mut n: int = 0;
    proof {
        assert(all.take(0) =~= Seq::<Value>::empty());
    }
    while input.len() > 0
        invariant
            0 <= n <= all.len(),
            input@ == all.skip(n),
            grouped(group_views(groups@), all.take(n), key@),
        decreases input.len(),
    {
        let item = input.remove(0);
        let ghost prev = all.take(n);
        proof {
            assert(item == all[n]);
            assert(input@ =~= all.skip(n + 1));
            assert(all.take(n + 1) =~= prev.push(item));
        }
        let k = group_key_of(&item, key);
        let kc = chars_of(k.as_str());
        let ghost gv = group_views(groups@);
        let mut p: usize = 0;
        while p < groups.len() && lex_less(&chars_of(groups[p].0.as_str()), &kc)
            invariant
                p <= groups.len(),
                gv == group_views(groups@),
                kc@ == k@,
                forall|i: int| 0 <= i < p ==> lex_lt(gv[i].0, k@),
            decreases groups.len() - p,
        {
            p = p + 1;
        }
        let same = p < groups.len() && crate::text::str_eq_chars(groups[p].0.as_str(), &kc);
        let ghost ik = item;
        if same {
            let (name, mut members) = groups.remove(p);
            members.push(item);
            groups.insert(p, (name, members));
            proof {
                let g2 = group_views(groups@);
                assert(g2.len() == gv.len());
                assert forall|i: int| 0 <= i < g2.len() && i != p implies g2[i] == gv[i] by {}
                assert(g2[p as int].0 == gv[p as int].0);
                assert(g2[p as int].1 =~= gv[p as int].1.push(ik));
                assert forall|i: int| 0 <= i < g2.len() implies #[trigger] g2[i].1 == all.take(n + 1).filter(in_group(g2[i].0, key@)) by {
                    prev.lemma_filter_push(ik, in_group(g2[i].0, key@));
                }
                assert forall|x: int| 0 <= x < n + 1 implies exists|i: int| 0 <= i < g2.len() && #[trigger] g2[i].0 == group_key(#[trigger] all.take(n + 1)[x], key@) by {
                    if x < n {
                        assert(all.take(n + 1)[x] == prev[x]);
                        let i = choose|i: int| 0 <= i < gv.len() && #[trigger] gv[i].0 == group_key(#[trigger] prev[x], key@);
                        assert(g2[i].0 == gv[i].0);
                    } else {
                        assert(g2[p as int].0 == group_key(ik, key@));
                    }
                }
            }
        } else {
            let mut members: Vec<Value> = Vec::new();
            members.push(item);
            groups.insert(p, (k, members));
            proof {
                let g2 = group_views(groups@);
                if p < gv.len() {
                    lemma_lex_total(gv[p as int].0, k@);
                }
                assert forall|i: int| 0 <= i < p implies g2[i] == gv[i] by {}
                assert forall|i: int| p < i < g2.len() implies g2[i] == gv[i - 1] by {}
                assert(g2[p as int].0 == k@);
                assert(g2[p as int].1 =~= seq![ik]);
                assert forall|i: int| p <= i < gv.len() implies lex_lt(k@, #[trigger] gv[i].0) by {
                    if i > p {
                        lemma_lex_transitive(k@, gv[p as int].0, gv[i].0);
                    }
                }
                assert forall|a: int, b: int| 0 <= a < b < g2.len() implies lex_lt(#[trigger] g2[a].0, #[trigger] g2[b].0) by {
                    if a < p && b > p {
                        lemma_lex_transitive(g2[a].0, k@, g2[b].0);
                    }
                }
                // No earlier item falls in the new group.
                assert forall|x: int| 0 <= x < prev.len() implies !in_group(k@, key@)(#[trigger] prev[x]) by {
                    let i = choose|i: int| 0 <= i < gv.len() && #[trigger] gv[i].0 == group_key(#[trigger] prev[x], key@);
                    if group_key(prev[x], key@) == k@ {
                        if i < p {
                            lemma_lex_irreflexive(k@);
                        } else if i == p {
                        } else {
                            lemma_lex_irreflexive(k@);
                        }
                    }
                }
                assert(prev.all(|v: Value| !in_group(k@, key@)(v)));
                prev.lemma_all_neg_filter_empty(in_group(k@, key@));
                assert forall|i: int| 0 <= i < g2.len() implies #[trigger] g2[i].1 == all.take(n + 1).filter(in_group(g2[i].0, key@)) by {
                    prev.lemma_filter_push(ik, in_group(g2[i].0, key@));
                    if i == p {
                        assert(prev.filter(in_group(k@, key@)) =~= Seq::<Value>::empty());
                        assert(Seq::<Value>::empty().push(ik) =~= seq![ik]);
                    } else {
                        let j = if i < p { i } else { i - 1 };
                        assert(g2[i] == gv[j]);
                        if group_key(ik, key@) == gv[j].0 {
                            assert(gv[j].0 == k@);
                            if j < p {
                                lemma_lex_irreflexive(k@);
                            } else {
                                lemma_lex_irreflexive(k@);
                            }
                        }
                    }
                }
                assert forall|x: int| 0 <= x < n + 1 implies exists|i: int| 0 <= i < g2.len() && #[trigger] g2[i].0 == group_key(#[trigger] all.take(n + 1)[x], key@) by {
                    if x < n {
                        assert(all.take(n + 1)[x] == prev[x]);
                        let i = choose|i: int| 0 <= i < gv.len() && #[trigger] gv[i].0 == group_key(#[trigger] prev[x], key@);
                        if i < p {
                            assert(g2[i].0 == gv[i].0);
                        } else {
                            assert(g2[i + 1].0 == gv[i].0);
                        }
                    } else {
                        assert(g2[p as int].0 == group_key(ik, key@));
                    }
                }
            }
        }
        proof {
            n = n + 1;
        }
    }
    assert(all.take(n) =~= all);
    groups
}

} // verus!

verus! {

/// The first of `cands`, from index `i` on, whose mark is set; a missing
/// mark counts as unset.
pub open spec fn first_marked(cands: Seq<Seq<char>>, marks: Seq<bool>, i: nat) -> Option<Seq<char>>
    decreases cands.len() - i,
{
    if i >= cands.len() {
        None
    } else if i < marks.len() && marks[i as int] {
        Some(cands[i as int])
    } else {
        first_marked(cands, marks, i + 1)
    }
}

/// The first candidate whose mark is set.
pub fn pick_first(cands: &Vec<String>, marks: &Vec<bool>) -> (r: Option<String>)
    ensures
        opt_view(r) == first_marked(crate::text::string_views(cands@), marks@, 0),
{
    let ghost cv = crate::text::string_views(cands@);
    let mut i: usize = 0;
    while i < cands.len()
        invariant
            i <= cands.len(),
            cv == crate::text::string_views(cands@),
            first_marked(cv, marks@, 0) == first_marked(cv, marks@, i as nat),
        decreases cands.len() - i,
    {
        if i < marks.len() && marks[i] {
            return Some(cands[i].clone());
        }
        i = i + 1;
    }
    None
}

/// `base` joined with `name` followed by `suffix`.
fn join_named(base: &str, name: &str, suffix: &str) -> (r: String)
    ensures
        r@ == path_join(base@, name@ + suffix@),
{
    let file = concat_str(name, suffix);
    join_path(base, file.as_str())
}

/// The files that may hold the layout called `name`, in the order they are
/// tried.
pub open spec fn layout_candidates_spec(root: Seq<char>, name: Seq<char>) -> Seq<Seq<char>> {
    let l = path_join(root, "layouts"@);
    let p = path_join(root, "pages"@);
    seq![
        path_join(l, name + ".titanium"@),
        path_join(l, name + ".ti"@),
        path_join(l, name + ".html"@),
        path_join(l, name + ".carbon"@),
        path_join(p, "_layout_"@ + name + ".titanium"@),
        path_join(p, "_layout_"@ + name + ".ti"@),
        path_join(p, "_layout_"@ + name + ".carbon"@),
        path_join(p, "_layout.titanium"@),
        path_join(p, "_layout.ti"@),
        path_join(p, "_layout.carbon"@),
    ]
}

/// The layout name that a page asked for, or `default`.
pub open spec fn layout_name(custom_name: Option<Seq<char>>) -> Seq<char> {
    match custom_name {
        Some(n) => n,
        None => "default"@,
    }
}

/// The files that may hold a page's layout, in the order they are tried.
pub fn layout_candidates(root_dir: &str, custom_name: Option<&str>) -> (r: Vec<String>)
    ensures
        crate::text::string_views(r@) == layout_candidates_spec(
            root_dir@,
            layout_name(match custom_name {
                Some(n) => Some(n@),
                None => None,
            }),
        ),
{
    let name: &str = match custom_name {
        Some(n) => n,
        None => "default",
    };
    let l = join_path(root_dir, "layouts");
    let p = join_path(root_dir, "pages");
    let mut r: Vec<String> = Vec::new();
    r.push(join_named(l.as_str(), name, ".titanium"));
    r.push(join_named(l.as_str(), name, ".ti"));
    r.push(join_named(l.as_str(), name, ".html"));
    r.push(join_named(l.as_str(), name, ".carbon"));
    let prefixed = concat_str("_layout_", name);
    r.push(join_named(p.as_str(), prefixed.as_str(), ".titanium"));
    r.push(join_named(p.as_str(), prefixed.as_str(), ".ti"));
    r.push(join_named(p.as_str(), prefixed.as_str(), ".carbon"));
    r.push(join_path(p.as_str(), "_layout.titanium"));
    r.push(join_path(p.as_str(), "_layout.ti"));
    r.push(join_path(p.as_str(), "_layout.carbon"));
    proof {
        reveal_strlit("default");
    }
    assert(crate::text::string_views(r@) =~= layout_candidates_spec(
        root_dir@,
        layout_name(match custom_name {
            Some(n) => Some(n@),
            None => None,
        }),
    ));
    r
}

/// The layout file for a page: the first candidate (see
/// [`layout_candidates`]) that exists. `exists[i]` says whether the `i`-th
/// candidate is a file.
pub fn resolve_layout(root_dir: &str, custom_name: Option<&str>, exists: &Vec<bool>) -> (r: Option<String>)
    ensures
        opt_view(r) == first_marked(
            layout_candidates_spec(
                root_dir@,
                layout_name(match custom_name {
                    Some(n) => Some(n@),
                    None => None,
                }),
            ),
            exists@,
            0,
        ),
{
    let cands = layout_candidates(root_dir, custom_name);
    pick_first(&cands, exists)
}

/// `s` without every trailing repetition of `p` (`str::trim_end_matches`).
pub open spec fn trim_end_matches_spec(s: Seq<char>, p: Seq<char>) -> Seq<char>
    decreases s.len(),
{
    if p.len() > 0 && p.len() <= s.len() && s.skip(s.len() - p.len()) == p {
        trim_end_matches_spec(s.take(s.len() - p.len()), p)
    } else {
        s
    }
}

/// Removes every trailing repetition of `p` from `s`.
pub fn trim_end_matches(s: &Vec<char>, p: &str) -> (r: Vec<char>)
    ensures
        r@ == trim_end_matches_spec(s@, p@),
{
    let pv = chars_of(p);
    let mut end: usize = s.len();
    assert(s@.take(s@.len() as int) =~= s@);
    while pv.len() > 0 && pv.len() <= end && crate::text::matches_at(s, &pv, end - pv.len())
        invariant
            end <= s.len(),
            pv@ == p@,
            trim_end_matches_spec(s@.take(end as int), p@) == trim_end_matches_spec(s@, p@),
        decreases end,
    {
        let ghost t = s@.take(end as int);
        assert(t.skip(t.len() - pv@.len()) =~= s@.subrange(end - pv@.len(), end as int));
        assert(t.take(t.len() - pv@.len()) =~= s@.take(end - pv@.len()));
        end = end - pv.len();
    }
    proof {
        let t = s@.take(end as int);
        if pv@.len() > 0 && pv@.len() <= end {
            assert(t.skip(t.len() - pv@.len()) =~= s@.subrange(end - pv@.len(), end as int));
        }
        assert(s@.take(s@.len() as int) =~= s@);
    }
    slice(s, 0, end)
}

/// A view's name without its `.html`, `.titanium` and `.ti` endings, in
/// that order.
pub open spec fn clean_view_name_spec(view_name: Seq<char>) -> Seq<char> {
    trim_end_matches_spec(
        trim_end_matches_spec(trim_end_matches_spec(view_name, ".html"@), ".titanium"@),
        ".ti"@,
    )
}

/// The files that may hold the view called `view_name`, in the order they
/// are tried.
pub open spec fn view_candidates_spec(root: Seq<char>, view_name: Seq<char>) -> Seq<Seq<char>> {
    let n = clean_view_name_spec(view_name);
    let a = path_join(path_join(root, "app"@), "views"@);
    let v = path_join(root, "views"@);
    seq![
        path_join(a, n + ".html"@),
        path_join(a, n + ".titanium"@),
        path_join(a, n + ".ti"@),
        path_join(v, n + ".html"@),
        path_join(v, n + ".titanium"@),
        path_join(v, n + ".ti"@),
    ]
}

/// The files that may hold a view, in the order they are tried.
pub fn view_candidates(root_dir: &str, view_name: &str) -> (r: Vec<String>)
    ensures
        crate::text::string_views(r@) == view_candidates_spec(root_dir@, view_name@),
{
    let raw = chars_of(view_name);
    let a = trim_end_matches(&raw, ".html");
    let b = trim_end_matches(&a, ".titanium");
    let c = trim_end_matches(&b, ".ti");
    let n = string_of(&c);
    let app = join_path(root_dir, "app");
    let av = join_path(app.as_str(), "views");
    let v = join_path(root_dir, "views");
    let mut r: Vec<String> = Vec::new();
    r.push(join_named(av.as_str(), n.as_str(), ".html"));
    r.push(join_named(av.as_str(), n.as_str(), ".titanium"));
    r.push(join_named(av.as_str(), n.as_str(), ".ti"));
    r.push(join_named(v.as_str(), n.as_str(), ".html"));
    r.push(join_named(v.as_str(), n.as_str(), ".titanium"));
    r.push(join_named(v.as_str(), n.as_str(), ".ti"));
    assert(crate::text::string_views(r@) =~= view_candidates_spec(root_dir@, view_name@));
    r
}

/// The file of a view: the first candidate (see [`view_candidates`]) that
/// exists, where `exists[i]` says whether the `i`-th candidate is a file;
/// else the error `MVC View not found: ` and the view's name.
pub fn find_view(root_dir: &str, view_name: &str, exists: &Vec<bool>) -> (r: Result<String, String>)
    ensures
        match first_marked(view_candidates_spec(root_dir@, view_name@), exists@, 0) {
            Some(p) => r matches Ok(s) && s@ == p,
            None => r matches Err(e) && e@ == "MVC View not found: "@ + view_name@,
        },
{
    let cands = view_candidates(root_dir, view_name);
    match pick_first(&cands, exists) {
        Some(p) => Ok(p),
        None => Err(concat_str("MVC View not found: ", view_name)),
    }
}

} // verus!

verus! {

/// Whether `k` is the text of one of `keys`.
pub open spec fn key_listed(keys: Seq<Value>, k: Seq<char>) -> bool {
    exists|j: int| 0 <= j < keys.len() && value_text(#[trigger] keys[j]) == k
}

/// Whether `s` is one of `list`.
fn text_in(list: &Vec<String>, s: &String) -> (b: bool)
    ensures
        b == exists|j: int| 0 <= j < list@.len() && #[trigger] list@[j]@ == s@,
{
    let mut i: usize = 0;
    while i < list.len()
        invariant
            i <= list.len(),
            forall|j: int| 0 <= j < i ==> list@[j]@ != s@,
        decreases list.len() - i,
    {
        if list[i] == *s {
            assert(list@[i as int]@ == s@);
            return true;
        }
        i = i + 1;
    }
    false
}

/// Replaces the value of each entry whose key is the text of one of
/// `sensitive_keys` by the text `********`; the other entries, and the
/// order, stay as they were.
pub fn redact(map: Vec<(String, Value)>, sensitive_keys: &Vec<Value>) -> (r: Vec<(String, Value)>)
    ensures
        r@.len() == map@.len(),
        forall|i: int|
            0 <= i < map@.len() ==> {
                &&& (#[trigger] r@[i]).0@ == map@[i].0@
                &&& if key_listed(sensitive_keys@, map@[i].0@) {
                    r@[i].1 matches Value::Str(s) && s@ == "********"@
                } else {
                    r@[i].1 == map@[i].1
                }
            },
{
    let mut texts: Vec<String> = Vec::new();
    let mut j: usize = 0;
    while j < sensitive_keys.len()
        invariant
            j <= sensitive_keys.len(),
            texts@.len() == j,
            forall|k: int| 0 <= k < j ==> #[trigger] texts@[k]@ == value_text(sensitive_keys@[k]),
        decreases sensitive_keys.len() - j,
    {
        let t = sensitive_keys[j].to_text();
        texts.push(t);
        j = j + 1;
    }
    let mut r = map;
    let ghost orig = r@;
    let mut i: usize = 0;
    while i < r.len()
        invariant
            i <= r.len(),
            r@.len() == orig.len(),
            orig == map@,
            texts@.len() == sensitive_keys@.len(),
            forall|k: int| 0 <= k < texts@.len() ==> #[trigger] texts@[k]@ == value_text(sensitive_keys@[k]),
            forall|k: int| i <= k < r@.len() ==> r@[k] == orig[k],
            forall|k: int|
                0 <= k < i ==> {
                    &&& (#[trigger] r@[k]).0@ == orig[k].0@
                    &&& if key_listed(sensitive_keys@, orig[k].0@) {
                        r@[k].1 matches Value::Str(s) && s@ == "********"@
                    } else {
                        r@[k].1 == orig[k].1
                    }
                },
        decreases r.len() - i,
    {
        let key = r[i].0.clone();
        let listed = text_in(&texts, &key);
        proof {
            if listed {
                let j = choose|j: int| 0 <= j < texts@.len() && #[trigger] texts@[j]@ == key@;
                assert(value_text(sensitive_keys@[j]) == key@);
            } else {
                assert forall|j: int| 0 <= j < sensitive_keys@.len() implies value_text(
                    #[trigger] sensitive_keys@[j],
                ) != key@ by {
                    assert(texts@[j]@ == value_text(sensitive_keys@[j]));
                }
            }
        }
        if listed {
            let masked = String::from_str("********");
            r.set(i, (key, Value::Str(masked)));
        }
        i = i + 1;
    }
    r
}

/// The integer that `s` denotes as a signed decimal literal: an optional
/// `+` or `-` and then one or more ASCII digits.
pub open spec fn signed_value(s: Seq<char>) -> Option<int> {
    if s.len() > 0 && s[0] == '-' {
        if all_digits(s.skip(1)) {
            Some(-(digits_value(s.skip(1)) as int))
        } else {
            None
        }
    } else {
        match unsigned_value(s) {
            Some(v) => Some(v as int),
            None => None,
        }
    }
}

/// `i64::from_str`: the value of a signed literal that fits.
pub open spec fn parse_i64_spec(s: Seq<char>) -> Option<i64> {
    match signed_value(s) {
        Some(v) => if i64::MIN <= v <= i64::MAX {
            Some(v as i64)
        } else {
            None
        },
        None => None,
    }
}

/// The script helper `parse_int`: the signed literal in `val` once trimmed,
/// or 0 where there is none that fits an `i64`.
pub open spec fn parse_int_spec(val: Seq<char>) -> i64 {
    match parse_i64_spec(trim_spec(val)) {
        Some(v) => v,
        None => 0,
    }
}

/// The bound above which a magnitude fits no `i64`.
pub open spec fn magnitude_cap() -> nat {
    0x8000_0000_0000_0001
}

/// Parses a signed decimal literal into an `i64`.
pub fn parse_i64(s: &Vec<char>) -> (r: Option<i64>)
    ensures
        r == parse_i64_spec(s@),
{
    let neg = s.len() > 0 && s[0] == '-';
    let start: usize = if s.len() > 0 && (s[0] == '-' || s[0] == '+') {
        1
    } else {
        0
    };
    let ghost d = s@.skip(start as int);
    proof {
        if neg {
            assert(d == s@.skip(1));
        } else if s@.len() > 0 && s@[0] == '+' {
            assert(d == s@.skip(1));
        } else {
            assert(d =~= s@);
        }
    }
    assert(signed_value(s@) == if all_digits(d) {
        Some(if neg { -(digits_value(d) as int) } else { digits_value(d) as int })
    } else {
        None::<int>
    });
    if start >= s.len() {
        assert(!all_digits(d));
        return None;
    }
    let cap: u128 = 0x8000_0000_0000_0001;
    let mut acc: u128 = 0;
    let mut i: usize = start;
    while i < s.len()
        invariant
            start <= i <= s.len(),
            start < s.len(),
            d == s@.skip(start as int),
            signed_value(s@) == if all_digits(d) {
                Some(if neg { -(digits_value(d) as int) } else { digits_value(d) as int })
            } else {
                None::<int>
            },
            cap == magnitude_cap(),
            forall|j: int| start <= j < i ==> is_digit(s@[j]),
            acc as nat == if digits_value(d.take(i - start)) < magnitude_cap() {
                digits_value(d.take(i - start))
            } else {
                magnitude_cap()
            },
        decreases s.len() - i,
    {
        let c = s[i];
        if !('0' <= c && c <= '9') {
            assert(d[i - start] == s@[i as int]);
            assert(!all_digits(d));
            return None;
        }
        assert(d.take(i - start + 1).drop_last() =~= d.take(i - start));
        assert(d.take(i - start + 1).last() == c);
        let dv = (c as u32 - 48) as u128;
        if acc < cap {
            acc = acc * 10 + dv;
            if acc > cap {
                acc = cap;
            }
        }
        i = i + 1;
    }
    assert(d.take(i - start) =~= d);
    proof {
        assert forall|j: int| 0 <= j < d.len() implies is_digit(d[j]) by {
            assert(d[j] == s@[start + j]);
        }
        assert(all_digits(d));
    }
    if neg {
        if acc <= 0x8000_0000_0000_0000 {
            let m = acc as i128;
            Some((0 - m) as i64)
        } else {
            None
        }
    } else {
        if acc <= 0x7fff_ffff_ffff_ffff {
            Some(acc as i64)
        } else {
            None
        }
    }
}

/// The script helper `parse_int`: the trimmed text as an `i64`, or 0.
pub fn parse_int(val: &str) -> (r: i64)
    ensures
        r == parse_int_spec(val@),
{
    let raw = chars_of(val);
    let t = trim_chars(&raw);
    match parse_i64(&t) {
        Some(v) => v,
        None => 0,
    }
}

} // verus!

verus! {

/// Chunking loses and reorders nothing: the chunks of `s` by a positive
/// size, put back together, give `s`; every chunk is non-empty and at most
/// the size, and all but the last have exactly the size.
pub proof fn law_chunks_flatten<T>(s: Seq<T>, n: nat)
    requires
        n > 0,
    ensures
        chunks_spec(s, n).flatten() == s,
        forall|i: int| 0 <= i < chunks_spec(s, n).len() ==> 0 < (#[trigger] chunks_spec(s, n)[i]).len() <= n,
        forall|i: int| 0 <= i < chunks_spec(s, n).len() - 1 ==> (#[trigger] chunks_spec(s, n)[i]).len() == n,
    decreases s.len(),
{
    let c = chunks_spec(s, n);
    if s.len() == 0 {
    } else if s.len() <= n {
        assert(c.drop_first() =~= Seq::<Seq<T>>::empty());
        assert(c.drop_first().flatten() == Seq::<T>::empty());
        assert(c.first() == s);
        assert(c.flatten() =~= s + Seq::<T>::empty());
    } else {
        let rest = s.skip(n as int);
        law_chunks_flatten(rest, n);
        assert(c.drop_first() =~= chunks_spec(rest, n));
        assert(c.first() == s.take(n as int));
        assert(s.take(n as int) + rest =~= s);
        assert forall|i: int| 0 <= i < c.len() implies 0 < (#[trigger] c[i]).len() <= n by {
            if i > 0 {
                assert(c[i] == chunks_spec(rest, n)[i - 1]);
            }
        }
        assert forall|i: int| 0 <= i < c.len() - 1 implies (#[trigger] c[i]).len() == n by {
            if i > 0 {
                assert(c[i] == chunks_spec(rest, n)[i - 1]);
            }
        }
    }
}

/// Masking keeps the length and the last `keep_last` characters, and puts
/// `•` everywhere before them.
pub proof fn law_mask_keeps_tail(text: Seq<char>, keep_last: nat)
    ensures
        mask_spec(text, keep_last).len() == text.len(),
        forall|i: int|
            0 <= i < text.len() ==> #[trigger] mask_spec(text, keep_last)[i] == if i < text.len() - keep_last {
                '•'
            } else {
                text[i]
            },
{
}

} // verus!

verus! {

/// `s` with each `\` turned into `/`.
pub open spec fn forward_slashes(s: Seq<char>) -> Seq<char> {
    Seq::new(s.len(), |i: int| if s[i] == '\\' { '/' } else { s[i] })
}

/// Whether a component file is an API endpoint: its path, with `\` read as
/// `/`, contains `/api/`.
pub fn is_api_component(file_path: &str) -> (b: bool)
    ensures
        b == contains_seq(forward_slashes(file_path@), "/api/"@),
{
    let raw = chars_of(file_path);
    let mut p: Vec<char> = Vec::new();
    let mut i: usize = 0;
    while i < raw.len()
        invariant
            i <= raw.len(),
            raw@ == file_path@,
            p@ == forward_slashes(raw@).take(i as int),
        decreases raw.len() - i,
    {
        if raw[i] == '\\' {
            p.push('/');
        } else {
            p.push(raw[i]);
        }
        i = i + 1;
        assert(p@ =~= forward_slashes(raw@).take(i as int));
    }
    assert(p@ =~= forward_slashes(file_path@));
    crate::text::contains(&p, &chars_of("/api/"))
}

/// What a page's script gave back.
pub enum ScriptResult {
    /// The page has no script.
    NoScript,
    /// A response asking for an MVC view to be rendered.
    ViewResponse,
    /// Any other response.
    Response,
    /// The unit value `()`.
    Unit,
    /// Any other value.
    Value,
}

/// What is done with a page once its script has run.
pub enum PageAction {
    /// The script's response is sent as it is.
    SendResponse,
    /// The view the script named is rendered and sent as HTML.
    RenderView,
    /// The script's value is sent as JSON with status 200.
    SendJson,
    /// The page's template is rendered.
    RenderTemplate,
    /// An empty HTML page with status 200 is sent.
    EmptyPage,
}

/// The action for a page: a response from the script wins (a view one is
/// rendered first); an API component's non-unit value is sent as JSON;
/// otherwise the template is rendered, or an empty page sent where there is
/// none.
pub open spec fn page_action_spec(result: ScriptResult, is_api: bool, has_template: bool) -> PageAction {
    match result {
        ScriptResult::ViewResponse => PageAction::RenderView,
        ScriptResult::Response => PageAction::SendResponse,
        ScriptResult::Value if is_api => PageAction::SendJson,
        _ => if has_template {
            PageAction::RenderTemplate
        } else {
            PageAction::EmptyPage
        },
    }
}

/// What to do with a page once its script has run.
pub fn page_action(result: ScriptResult, is_api: bool, has_template: bool) -> (a: PageAction)
    ensures
        a == page_action_spec(result, is_api, has_template),
{
    match result {
        ScriptResult::ViewResponse => PageAction::RenderView,
        ScriptResult::Response => PageAction::SendResponse,
        ScriptResult::Value if is_api => PageAction::SendJson,
        _ => if has_template {
            PageAction::RenderTemplate
        } else {
            PageAction::EmptyPage
        },
    }
}

/// The data of a server-sent event for a script value: a string is sent as
/// it is; any other value as its JSON text `json` (which the caller makes),
/// or as its display text where it has none.
pub fn sse_payload(v: &Value, json: Option<String>) -> (r: String)
    ensures
        r@ == match *v {
            Value::Str(s) => s@,
            _ => match json {
                Some(j) => j@,
                None => value_text(*v),
            },
        },
{
    match v {
        Value::Str(s) => s.clone(),
        _ => match json {
            Some(j) => j,
            None => v.to_text(),
        },
    }
}

/// The layout a page asked for: its `layout` variable, else `none` where
/// it set `no_layout` to true, else nothing (the default layout).
pub fn layout_choice(layout: Option<String>, no_layout: Option<bool>) -> (r: Option<String>)
    ensures
        opt_view(r) == match layout {
            Some(l) => Some(l@),
            None => if no_layout == Some(true) {
                Some("none"@)
            } else {
                None
            },
        },
{
    match layout {
        Some(l) => Some(l),
        None => if no_layout == Some(true) {
            Some("none".to_owned())
        } else {
            None
        },
    }
}

} // verus!

verus! {

/// The decimal notation of a number is a non-empty string of digits whose
/// value is the number.
pub proof fn lemma_nat_decimal_digits(k: nat)
    ensures
        nat_decimal(k).len() > 0,
        all_digits(nat_decimal(k)),
        digits_value(nat_decimal(k)) == k,
    decreases k,
{
    let s = nat_decimal(k);
    if k < 10 {
        assert(s.drop_last() =~= Seq::<char>::empty());
        assert(s.last() == crate::text::digit_char(k));
        assert((crate::text::digit_char(k) as u32) == 48 + k);
        assert(digits_value(s.drop_last()) == 0);
        assert(digits_value(s) == k);
    } else {
        lemma_nat_decimal_digits(k / 10);
        let p = nat_decimal(k / 10);
        assert(s == p.push(crate::text::digit_char(k % 10)));
        assert(s.drop_last() =~= p);
        assert((crate::text::digit_char(k % 10) as u32) == 48 + k % 10);
        assert(digits_value(s) == digits_value(p) * 10 + k % 10);
        assert((k / 10) * 10 + k % 10 == k) by (nonlinear_arith)
            requires
                k >= 10,
        {
            vstd::arithmetic::div_mod::lemma_fundamental_div_mod(k as int, 10);
        }
        assert forall|i: int| 0 <= i < s.len() implies is_digit(s[i]) by {
            if i < p.len() {
                assert(s[i] == p[i]);
            }
        }
    }
}

/// `parse_int` reads back what an integer prints as: for every `i64` `n`,
/// parsing its decimal text gives `n`.
pub proof fn law_parse_int_round_trip(n: i64)
    ensures
        parse_int_spec(crate::text::int_decimal(n as int)) == n,
{
    let s = crate::text::int_decimal(n as int);
    let m: nat = if n < 0 {
        (-(n as int)) as nat
    } else {
        n as nat
    };
    lemma_nat_decimal_digits(m);
    let d = nat_decimal(m);
    if n < 0 {
        assert(s == seq!['-'] + d);
        assert(s.skip(1) =~= d);
    } else {
        assert(s == d);
        assert(is_digit(d[0]));
    }
    assert(s.len() > 0);
    assert(!crate::text::is_space(s[0]));
    assert(is_digit(s.last()));
    assert(!crate::text::is_space(s.last()));
    assert(crate::text::leading_space(s) == 0);
    assert(crate::text::trim_start_spec(s) =~= s);
    assert(crate::text::trailing_space(s) == 0);
    assert(trim_spec(s) =~= s);
}

} // verus!

verus! {

/// A generated token has the asked length and only ASCII letters and
/// digits.
pub proof fn law_token_shape(seed: u128, n: nat)
    ensures
        token_spec(seed, n).len() == n,
        forall|i: int| 0 <= i < n ==> crate::text::ascii_alnum(#[trigger] token_spec(seed, n)[i]),
    decreases n,
{
    if n > 0 {
        law_token_shape(seed, (n - 1) as nat);
        let t = token_spec(seed, n);
        let prev = token_spec(seed, (n - 1) as nat);
        let b = (lcg_state(seed, n) >> 32) as u8;
        assert(t == prev.push(token_char(b)));
        assert(crate::text::ascii_alnum(token_char(b)));
        assert forall|i: int| 0 <= i < n implies crate::text::ascii_alnum(#[trigger] t[i]) by {
            if i < n - 1 {
                assert(t[i] == prev[i]);
            }
        }
    }
}

/// The hex text of `n` bytes has two digits per byte.
pub proof fn lemma_bytes_hex_len(b: Seq<u8>)
    ensures
        bytes_hex(b).len() == 2 * b.len(),
    decreases b.len(),
{
    if b.len() > 0 {
        lemma_bytes_hex_len(b.drop_last());
    }
}

} // verus!

verus! {

/// A well-formed slug: empty, or not starting or ending with `-` and with
/// no two `-` in a row.
pub open spec fn slug_shaped(r: Seq<char>) -> bool {
    r.len() == 0 || (r[0] != '-' && r.last() != '-' && forall|i: int|
        0 <= i < r.len() - 1 && #[trigger] r[i] == '-' ==> r[i + 1] != '-')
}

/// No piece of a split holds the separator.
pub proof fn lemma_pieces_free_of_sep(s: Seq<char>, sep: char)
    ensures
        forall|k: int, j: int|
            0 <= k < split_pieces(s, sep).len() && 0 <= j < split_pieces(s, sep)[k].len() ==> #[trigger] split_pieces(
                s,
                sep,
            )[k][j] != sep,
    decreases s.len(),
{
    if s.len() > 0 {
        lemma_pieces_free_of_sep(s.drop_last(), sep);
        crate::text::lemma_split_pieces_len(s.drop_last(), sep);
        let p = split_pieces(s.drop_last(), sep);
        if s.last() == sep {
            assert(split_pieces(s, sep) == p.push(Seq::<char>::empty()));
            assert forall|k: int, j: int|
                0 <= k < split_pieces(s, sep).len() && 0 <= j < split_pieces(s, sep)[k].len() implies #[trigger] split_pieces(
                s,
                sep,
            )[k][j] != sep by {
                assert(k < p.len());
                assert(split_pieces(s, sep)[k] == p[k]);
            }
        } else {
            let q = p.update(p.len() - 1, p.last().push(s.last()));
            assert(split_pieces(s, sep) == q);
            assert forall|k: int, j: int|
                0 <= k < split_pieces(s, sep).len() && 0 <= j < split_pieces(s, sep)[k].len() implies #[trigger] split_pieces(
                s,
                sep,
            )[k][j] != sep by {
                if k == p.len() - 1 {
                    if j < p.last().len() {
                        assert(q[k][j] == p[k][j]);
                    }
                } else {
                    assert(q[k] == p[k]);
                }
            }
        }
    }
}

/// Joining non-empty pieces free of `-` with `-` gives a well-formed slug.
pub proof fn lemma_join_slug_shaped(ps: Seq<Seq<char>>)
    requires
        forall|k: int| 0 <= k < ps.len() ==> (#[trigger] ps[k]).len() > 0,
        forall|k: int, j: int| 0 <= k < ps.len() && 0 <= j < ps[k].len() ==> #[trigger] ps[k][j] != '-',
    ensures
        slug_shaped(join_spec(ps, seq!['-'])),
        ps.len() > 0 ==> join_spec(ps, seq!['-']).len() > 0,
    decreases ps.len(),
{
    if ps.len() == 1 {
        let p = ps[0];
        assert(join_spec(ps, seq!['-']) == p);
        assert(p[0] != '-');
        assert(p[p.len() - 1] != '-');
    } else if ps.len() > 1 {
        let init = ps.drop_last();
        let p = ps.last();
        assert forall|k: int| 0 <= k < init.len() implies (#[trigger] init[k]).len() > 0 by {
            assert(init[k] == ps[k]);
        }
        assert forall|k: int, j: int| 0 <= k < init.len() && 0 <= j < init[k].len() implies #[trigger] init[k][j]
            != '-' by {
            assert(init[k] == ps[k]);
        }
        lemma_join_slug_shaped(init);
        let a = join_spec(init, seq!['-']);
        let r = join_spec(ps, seq!['-']);
        assert(r == a + seq!['-'] + p);
        assert(p.len() > 0);
        assert(forall|j: int| 0 <= j < p.len() ==> p[j] != '-') by {
            assert forall|j: int| 0 <= j < p.len() implies p[j] != '-' by {
                assert(ps[ps.len() - 1][j] != '-');
            }
        }
        assert(r[0] == a[0]);
        assert(r.last() == p.last());
        assert forall|i: int| 0 <= i < r.len() - 1 && #[trigger] r[i] == '-' implies r[i + 1] != '-' by {
            if i < a.len() - 1 {
                assert(r[i] == a[i] && r[i + 1] == a[i + 1]);
            } else if i == a.len() - 1 {
                assert(r[i] == a.last());
            } else if i == a.len() {
                assert(r[i + 1] == p[0]);
            } else {
                assert(r[i] == p[i - a.len() - 1]);
            }
        }
    }
}

/// Slugs are well formed: a slug never starts or ends with `-` and never
/// holds two `-` in a row.
pub proof fn law_slug_shape(text: Seq<char>)
    ensures
        slug_shaped(slug_spec(text)),
{
    let l = lowercase(text);
    let m = Seq::new(l.len(), |i: int| if alphanumeric(l[i]) { l[i] } else { '-' });
    let sp = split_pieces(m, '-');
    let ps = nonempty_pieces(m, '-');
    lemma_pieces_free_of_sep(m, '-');
    let pred = crate::text::nonempty_pred();
    assert forall|k: int| 0 <= k < ps.len() implies (#[trigger] ps[k]).len() > 0 && ps.len() > 0 && (
    exists|q: int| 0 <= q < sp.len() && sp[q] == ps[k]) by {
        sp.filter_lemma(pred);
        assert(pred(ps[k]));
        assert(ps.contains(ps[k]));
        sp.lemma_filter_contains_rev(pred, ps[k]);
        assert(sp.contains(ps[k]));
    }
    assert forall|k: int, j: int| 0 <= k < ps.len() && 0 <= j < ps[k].len() implies #[trigger] ps[k][j] != '-' by {
        let q = choose|q: int| 0 <= q < sp.len() && sp[q] == ps[k];
        assert(sp[q][j] != '-');
    }
    lemma_join_slug_shaped(ps);
}

} // verus!
