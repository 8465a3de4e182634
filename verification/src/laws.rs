//! General laws of the codec, stated over the same spec functions that
//! the parse and format contracts use, and proved once and for all.

use vstd::prelude::*;

use crate::attrmap::assoc_insert;
use crate::cookie::apply_attr;
use crate::cookie::attr_split;
use crate::cookie::custom_str;
use crate::cookie::format_model;
use crate::cookie::new_model;
use crate::cookie::parse_model;
use crate::cookie::strip_dot;
use crate::cookie::CookieModel;
use crate::cookie::apply_attrs;
use crate::num::max_age_of;
use crate::text::find_idx;
use crate::text::lemma_find_idx_props;
use crate::text::lower_char;
use crate::text::lemma_drop_leading_skip;
use crate::text::lemma_drop_trailing_take;
use crate::text::lemma_find_idx_none;
use crate::text::lemma_find_idx_some;
use crate::text::lower_seq;
use crate::text::trimmed;
use crate::text::ws;

verus! {

/// The six attribute names the parser intercepts, in lower case.
pub open spec fn reserved_key(lk: Seq<char>) -> bool {
    ||| lk == "secure"@
    ||| lk == "httponly"@
    ||| lk == "max-age"@
    ||| lk == "domain"@
    ||| lk == "path"@
    ||| lk == "expires"@
}

/// A name/value pair survives a format/parse round trip unchanged:
/// parsing the formatted form of a bare cookie yields that same cookie,
/// provided the name is non-empty, neither part holds a `;`, the name
/// holds no `=`, and neither part starts or ends with whitespace.
pub proof fn lemma_name_value_round_trip(name: Seq<char>, value: Seq<char>)
    requires
        name.len() > 0,
        forall|k: int| 0 <= k < name.len() ==> name[k] != ';' && name[k] != '=',
        forall|k: int| 0 <= k < value.len() ==> value[k] != ';',
        !ws(name[0]),
        !ws(name[name.len() - 1]),
        value.len() > 0 ==> !ws(value[0]) && !ws(value[value.len() - 1]),
    ensures
        parse_model(format_model(new_model(name, value))) == Some(new_model(name, value)),
{
    let c = new_model(name, value);
    let f = format_model(c);
    assert(custom_str(c.custom) =~= Seq::<char>::empty());
    assert(f =~= name + "="@ + value);
    reveal_strlit("=");
    assert("="@ == seq!['=']);
    let nl = name.len() as int;
    assert(f.len() == nl + 1 + value.len());
    assert forall|k: int| 0 <= k < f.len() implies f[k] != ';' by {
        if k < nl {
            assert(f[k] == name[k]);
        } else if k == nl {
            assert(f[k] == '=');
        } else {
            assert(f[k] == value[k - nl - 1]);
        }
    }
    // The formatted string is already trimmed.
    assert(f[0] == name[0]);
    if value.len() > 0 {
        assert(f[f.len() - 1] == value[value.len() - 1]);
    } else {
        assert(f[f.len() - 1] == '=');
    }
    lemma_drop_leading_skip(f, 0);
    assert(f.skip(0) =~= f);
    lemma_drop_trailing_take(f, f.len() as int);
    assert(f.take(f.len() as int) =~= f);
    assert(trimmed(f) == f);
    lemma_find_idx_none(f, ';');
    // The first `=` sits exactly after the name.
    assert(f[nl] == '=');
    assert forall|k: int| 0 <= k < nl implies f[k] != '=' by {
        assert(f[k] == name[k]);
    }
    lemma_find_idx_some(f, '=', nl);
    assert(f.take(nl) =~= name);
    assert(f.skip(nl + 1) =~= value);
    // Name and value are already trimmed.
    lemma_drop_leading_skip(name, 0);
    assert(name.skip(0) =~= name);
    lemma_drop_trailing_take(name, nl);
    assert(name.take(nl) =~= name);
    assert(trimmed(name) == name);
    if value.len() > 0 {
        lemma_drop_leading_skip(value, 0);
        assert(value.skip(0) =~= value);
        lemma_drop_trailing_take(value, value.len() as int);
        assert(value.take(value.len() as int) =~= value);
    }
    assert(trimmed(value) == value);
    assert(parse_model(f) == Some(c));
}

/// Recognized attribute keys are matched case-insensitively: two
/// segments whose keys fold to the same recognized name and that carry
/// the same value act identically on any cookie.
pub proof fn lemma_attr_key_case_insensitive(c: CookieModel, seg1: Seq<char>, seg2: Seq<char>)
    requires
        lower_seq(attr_split(seg1).0) == lower_seq(attr_split(seg2).0),
        attr_split(seg1).1 == attr_split(seg2).1,
        reserved_key(lower_seq(attr_split(seg1).0)),
    ensures
        apply_attr(c, seg1) == apply_attr(c, seg2),
{
}

/// An unrecognized attribute with no value is ignored: it leaves the
/// cookie exactly as it was.
pub proof fn lemma_unrecognized_flag_ignored(c: CookieModel, seg: Seq<char>)
    requires
        attr_split(seg).1 is None,
        lower_seq(attr_split(seg).0) != "secure"@,
        lower_seq(attr_split(seg).0) != "httponly"@,
    ensures
        apply_attr(c, seg) == c,
{
}

/// A `Max-Age` attribute stores exactly what its value parses to, and a
/// value that fails to parse leaves the cookie unchanged.
pub proof fn lemma_max_age_attr(c: CookieModel, seg: Seq<char>)
    requires
        lower_seq(attr_split(seg).0) == "max-age"@,
        attr_split(seg).1 is Some,
    ensures
        apply_attr(c, seg) == match max_age_of(attr_split(seg).1->0) {
            Some(n) => CookieModel { max_age: Some(n), ..c },
            None => c,
        },
{
    reveal_strlit("secure");
    reveal_strlit("httponly");
    reveal_strlit("max-age");
    assert("max-age"@.len() == 7);
    assert("secure"@.len() == 6);
    assert("httponly"@.len() == 8);
    assert(lower_seq(attr_split(seg).0) != "secure"@);
    assert(lower_seq(attr_split(seg).0) != "httponly"@);
}

/// A negative `Max-Age` that parses is clamped to zero.
pub proof fn lemma_max_age_clamps_negative(c: CookieModel, seg: Seq<char>)
    requires
        lower_seq(attr_split(seg).0) == "max-age"@,
        attr_split(seg).1 is Some,
        attr_split(seg).1->0.len() > 0,
        attr_split(seg).1->0[0] == '-',
        max_age_of(attr_split(seg).1->0) is Some,
    ensures
        apply_attr(c, seg).max_age == Some(0u64),
{
    lemma_max_age_attr(c, seg);
}

/// A `Domain` attribute with a non-empty value stores the value lower
/// cased with one leading dot stripped; an empty value is skipped.
pub proof fn lemma_domain_attr(c: CookieModel, seg: Seq<char>)
    requires
        lower_seq(attr_split(seg).0) == "domain"@,
        attr_split(seg).1 is Some,
    ensures
        attr_split(seg).1->0.len() == 0 ==> apply_attr(c, seg) == c,
        attr_split(seg).1->0.len() > 0 ==> apply_attr(c, seg) == (CookieModel {
            domain: Some(lower_seq(strip_dot(attr_split(seg).1->0))),
            ..c
        }),
{
    reveal_strlit("secure");
    reveal_strlit("httponly");
    reveal_strlit("max-age");
    reveal_strlit("domain");
    assert("domain"@.len() == 6);
    assert("secure"@.len() == 6);
    assert("httponly"@.len() == 8);
    assert("max-age"@.len() == 7);
    assert("domain"@[0] == 'd');
    assert("secure"@[0] == 's');
    assert(lower_seq(attr_split(seg).0) != "secure"@);
    assert(lower_seq(attr_split(seg).0) != "httponly"@);
    assert(lower_seq(attr_split(seg).0) != "max-age"@);
}

/// An unrecognized attribute with a value is stored as a custom entry
/// under its original key spelling, replacing any entry of that key.
pub proof fn lemma_custom_attr(c: CookieModel, seg: Seq<char>)
    requires
        !reserved_key(lower_seq(attr_split(seg).0)),
        attr_split(seg).1 is Some,
    ensures
        apply_attr(c, seg) == (CookieModel {
            custom: assoc_insert(c.custom, attr_split(seg).0, attr_split(seg).1->0),
            ..c
        }),
{
}

/// Attribute segments never touch the name or the value: only the
/// first segment of the raw string decides them.
pub proof fn lemma_attrs_keep_name_value(c: CookieModel, s: Seq<char>)
    ensures
        apply_attrs(c, s).name == c.name,
        apply_attrs(c, s).value == c.value,
    decreases s.len(),
{
    lemma_find_idx_props(s, ';');
    match find_idx(s, ';') {
        Some(i) => {
            lemma_attrs_keep_name_value(apply_attr(c, s.take(i)), s.skip(i + 1));
        },
        None => {},
    }
}

/// A successful parse never yields an empty name.
pub proof fn lemma_parse_name_nonempty(s: Seq<char>)
    requires
        parse_model(s) is Some,
    ensures
        parse_model(s)->0.name.len() > 0,
{
    let t = trimmed(s);
    match find_idx(t, ';') {
        Some(i) => {
            let ft = trimmed(t.take(i));
            match find_idx(ft, '=') {
                Some(j) => {
                    let base = new_model(trimmed(ft.take(j)), trimmed(ft.skip(j + 1)));
                    lemma_attrs_keep_name_value(base, t.skip(i + 1));
                },
                None => {},
            }
        },
        None => {},
    }
}

/// ASCII case folding is idempotent.
pub proof fn lemma_lower_seq_idempotent(s: Seq<char>)
    ensures
        lower_seq(lower_seq(s)) == lower_seq(s),
{
    assert forall|i: int| 0 <= i < s.len() implies lower_char(lower_char(s[i]))
        == lower_char(s[i]) by {}
    assert(lower_seq(lower_seq(s)) =~= lower_seq(s));
}

/// A domain, once stored, is an ASCII-lower-cased string.
pub open spec fn domain_lowered(c: CookieModel) -> bool {
    c.domain matches Some(d) ==> d == lower_seq(d)
}

/// Every attribute step keeps the domain lower cased: the `Domain`
/// attribute stores a folded value and nothing else writes the field.
pub proof fn lemma_attr_keeps_domain_lowered(c: CookieModel, seg: Seq<char>)
    requires
        domain_lowered(c),
    ensures
        domain_lowered(apply_attr(c, seg)),
{
    let kv = attr_split(seg);
    if lower_seq(kv.0) == "domain"@ && kv.1 is Some && kv.1->0.len() > 0 {
        lemma_lower_seq_idempotent(strip_dot(kv.1->0));
    }
}

/// Attribute runs keep the domain lower cased.
pub proof fn lemma_attrs_keep_domain_lowered(c: CookieModel, s: Seq<char>)
    requires
        domain_lowered(c),
    ensures
        domain_lowered(apply_attrs(c, s)),
    decreases s.len(),
{
    lemma_find_idx_props(s, ';');
    match find_idx(s, ';') {
        Some(i) => {
            lemma_attr_keeps_domain_lowered(c, s.take(i));
            lemma_attrs_keep_domain_lowered(apply_attr(c, s.take(i)), s.skip(i + 1));
        },
        None => {
            lemma_attr_keeps_domain_lowered(c, s);
        },
    }
}

/// A parsed cookie's domain, when present, is ASCII lower case.
pub proof fn lemma_parse_domain_lowered(s: Seq<char>)
    requires
        parse_model(s) is Some,
    ensures
        domain_lowered(parse_model(s)->0),
{
    let t = trimmed(s);
    match find_idx(t, ';') {
        Some(i) => {
            let ft = trimmed(t.take(i));
            match find_idx(ft, '=') {
                Some(j) => {
                    let base = new_model(trimmed(ft.take(j)), trimmed(ft.skip(j + 1)));
                    lemma_attrs_keep_domain_lowered(base, t.skip(i + 1));
                },
                None => {},
            }
        },
        None => {},
    }
}

} // verus!
