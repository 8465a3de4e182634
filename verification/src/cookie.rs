//! The cookie record and its codec: parsing a raw attribute string of
//! the form `name=value[; attr[=val]]*` into a [`Cookie`], and formatting
//! a [`Cookie`] back into its canonical string form.

use vstd::prelude::*;
use vstd::string::*;

use crate::attrmap::assoc_insert;
use crate::attrmap::sorted_keys;
use crate::attrmap::AttrMap;
use crate::expires::expires_of;
use crate::expires::parse_expires;
use crate::expires::rfc822_of;
use crate::expires::rfc822_string;
use crate::expires::tm_in_range;
use crate::expires::Tm;
use crate::num::dec_str;
use crate::num::max_age_of;
use crate::num::parse_max_age;
use crate::num::u64_str;
use crate::text::eq_fold;
use crate::text::find_from;
use crate::text::find_idx;
use crate::text::lemma_find_idx_none;
use crate::text::lemma_find_idx_props;
use crate::text::lemma_find_idx_some;
use crate::text::lower_seq;
use crate::text::lower_string;
use crate::text::trim_str;
use crate::text::trimmed;

verus! {

/// The mathematical shape of a cookie: every field as a plain value.
#[verifier::ext_equal]
pub ghost struct CookieModel {
    pub name: Seq<char>,
    pub value: Seq<char>,
    pub expires: Option<Tm>,
    pub max_age: Option<u64>,
    pub domain: Option<Seq<char>>,
    pub path: Option<Seq<char>>,
    pub secure: bool,
    pub httponly: bool,
    pub custom: Seq<(Seq<char>, Seq<char>)>,
}

/// A cookie built from a bare name and value: optional fields unset,
/// flags false, no custom attributes.
pub open spec fn new_model(name: Seq<char>, value: Seq<char>) -> CookieModel {
    CookieModel {
        name,
        value,
        expires: None,
        max_age: None,
        domain: None,
        path: None,
        secure: false,
        httponly: false,
        custom: Seq::empty(),
    }
}

/// A well-formed cookie: any parsed timestamp stays in the ranges that
/// RFC 822 formatting needs, and custom attribute keys are strictly
/// ascending.
pub open spec fn wf_model(c: CookieModel) -> bool {
    &&& (c.expires matches Some(t) ==> tm_in_range(t))
    &&& sorted_keys(c.custom)
}

/// Splitting one attribute segment at its first `=`: the key (trimmed)
/// and, if an `=` is present, the value (trimmed).
pub open spec fn attr_split(seg: Seq<char>) -> (Seq<char>, Option<Seq<char>>) {
    match find_idx(seg, '=') {
        Some(p) => (trimmed(seg.take(p)), Some(trimmed(seg.skip(p + 1)))),
        None => (trimmed(seg), None),
    }
}

/// One leading dot removed, as the `Domain` attribute rule asks.
pub open spec fn strip_dot(v: Seq<char>) -> Seq<char> {
    if v.len() > 0 && v[0] == '.' {
        v.drop_first()
    } else {
        v
    }
}

/// The effect of one attribute segment on a cookie: the dispatch table
/// of the parser. The key is matched case-insensitively; a recognized
/// attribute that fails its own parse leaves the cookie unchanged.
pub open spec fn apply_attr(c: CookieModel, seg: Seq<char>) -> CookieModel {
    let kv = attr_split(seg);
    let lk = lower_seq(kv.0);
    if lk == "secure"@ {
        CookieModel { secure: true, ..c }
    } else if lk == "httponly"@ {
        CookieModel { httponly: true, ..c }
    } else if lk == "max-age"@ {
        match kv.1 {
            Some(v) => match max_age_of(v) {
                Some(n) => CookieModel { max_age: Some(n), ..c },
                None => c,
            },
            None => c,
        }
    } else if lk == "domain"@ {
        match kv.1 {
            Some(v) => if v.len() == 0 {
                c
            } else {
                CookieModel { domain: Some(lower_seq(strip_dot(v))), ..c }
            },
            None => c,
        }
    } else if lk == "path"@ {
        match kv.1 {
            Some(v) => CookieModel { path: Some(v), ..c },
            None => c,
        }
    } else if lk == "expires"@ {
        match kv.1 {
            Some(v) => match expires_of(v) {
                Some(t) => CookieModel { expires: Some(t), ..c },
                None => c,
            },
            None => c,
        }
    } else {
        match kv.1 {
            Some(v) => CookieModel { custom: assoc_insert(c.custom, kv.0, v), ..c },
            None => c,
        }
    }
}

/// The effect of a `;`-separated run of attribute segments, applied left
/// to right.
pub open spec fn apply_attrs(c: CookieModel, s: Seq<char>) -> CookieModel
    decreases s.len(),
    via apply_attrs_dec
{
    match find_idx(s, ';') {
        Some(i) => apply_attrs(apply_attr(c, s.take(i)), s.skip(i + 1)),
        None => apply_attr(c, s),
    }
}

#[via_fn]
proof fn apply_attrs_dec(c: CookieModel, s: Seq<char>) {
    lemma_find_idx_props(s, ';');
}

/// What parsing a raw cookie string yields: `None` exactly where the
/// first segment is missing an `=` or has an empty name; otherwise the
/// base cookie with every following attribute segment applied.
pub open spec fn parse_model(s: Seq<char>) -> Option<CookieModel> {
    let t = trimmed(s);
    let first = match find_idx(t, ';') {
        Some(i) => t.take(i),
        None => t,
    };
    let ft = trimmed(first);
    match find_idx(ft, '=') {
        None => None,
        Some(j) => {
            let name = trimmed(ft.take(j));
            let value = trimmed(ft.skip(j + 1));
            if name.len() == 0 {
                None
            } else {
                let base = new_model(name, value);
                Some(
                    match find_idx(t, ';') {
                        Some(i) => apply_attrs(base, t.skip(i + 1)),
                        None => base,
                    },
                )
            }
        },
    }
}

/// One custom attribute as formatted output: `; key=value`.
pub open spec fn entry_str(e: (Seq<char>, Seq<char>)) -> Seq<char> {
    "; "@ + e.0 + "="@ + e.1
}

/// The formatted run of custom attributes, in stored (ascending key)
/// order.
pub open spec fn custom_str(m: Seq<(Seq<char>, Seq<char>)>) -> Seq<char>
    decreases m.len(),
{
    if m.len() == 0 {
        Seq::empty()
    } else {
        custom_str(m.drop_last()) + entry_str(m.last())
    }
}

/// A flag's contribution to the formatted output: the literal when set,
/// nothing otherwise.
pub open spec fn flag_str(b: bool, lit: Seq<char>) -> Seq<char> {
    if b {
        lit
    } else {
        Seq::empty()
    }
}

/// An optional field's contribution: `prefix` then the value when set,
/// nothing otherwise.
pub open spec fn opt_str(o: Option<Seq<char>>, prefix: Seq<char>) -> Seq<char> {
    match o {
        Some(x) => prefix + x,
        None => Seq::empty(),
    }
}

/// The canonical string form of a cookie: `name=value`, then each set
/// field in fixed order, then the custom attributes in ascending key
/// order.
pub open spec fn format_model(c: CookieModel) -> Seq<char> {
    c.name + "="@ + c.value + flag_str(c.httponly, "; HttpOnly"@) + flag_str(
        c.secure,
        "; Secure"@,
    ) + opt_str(c.path, "; Path="@) + opt_str(c.domain, "; Domain="@) + opt_str(
        match c.max_age {
            Some(n) => Some(dec_str(n as int)),
            None => None,
        },
        "; Max-Age="@,
    ) + opt_str(
        match c.expires {
            Some(t) => Some(rfc822_of(t)),
            None => None,
        },
        "; Expires="@,
    ) + custom_str(c.custom)
}

/// Applies one attribute segment to the cookie under construction,
/// per the dispatch table of [`apply_attr`].
fn process_attr(c: &mut Cookie, seg: &str)
    requires
        old(c).wf(),
    ensures
        final(c).wf(),
        final(c)@ == apply_attr(old(c)@, seg@),
{
    let nseg = seg.unicode_len();
    let eqp = find_from(seg, 0, '=');
    proof {
        match eqp {
            Some(p) => lemma_find_idx_some(seg@, '=', p as int),
            None => lemma_find_idx_none(seg@, '='),
        }
    }
    let (k, vopt): (&str, Option<&str>) = match eqp {
        Some(p) => {
            let kr = seg.substring_char(0, p);
            let vr = seg.substring_char(p + 1, nseg);
            proof {
                assert(kr@ =~= seg@.take(p as int));
                assert(vr@ =~= seg@.skip(p + 1));
            }
            (trim_str(kr), Some(trim_str(vr)))
        },
        None => (trim_str(seg), None),
    };
    proof {
        assert(k@ == attr_split(seg@).0);
        match vopt {
            Some(v) => assert(attr_split(seg@).1 == Some(v@)),
            None => assert(attr_split(seg@).1 is None),
        }
    }
    if eq_fold(k, "secure") {
        c.secure = true;
    } else if eq_fold(k, "httponly") {
        c.httponly = true;
    } else if eq_fold(k, "max-age") {
        if let Some(v) = vopt {
            if let Some(m) = parse_max_age(v) {
                c.max_age = Some(m);
            }
        }
    } else if eq_fold(k, "domain") {
        if let Some(v) = vopt {
            let nv = v.unicode_len();
            if nv > 0 {
                let stripped = if v.get_char(0) == '.' {
                    let sr = v.substring_char(1, nv);
                    proof {
                        assert(sr@ =~= v@.drop_first());
                    }
                    sr
                } else {
                    v
                };
                proof {
                    assert(stripped@ == strip_dot(v@));
                }
                c.domain = Some(lower_string(stripped));
            }
        }
    } else if eq_fold(k, "path") {
        if let Some(v) = vopt {
            c.path = Some(String::from_str(v));
        }
    } else if eq_fold(k, "expires") {
        if let Some(v) = vopt {
            if let Some(tm) = parse_expires(v) {
                c.expires = Some(tm);
            }
        }
    } else {
        if let Some(v) = vopt {
            c.custom.insert(String::from_str(k), String::from_str(v));
        }
    }
    proof {
        assert(c@ =~= apply_attr(old(c)@, seg@));
    }
}

/// The parse error: the first segment was missing, was not `name=value`,
/// or had an empty name.
#[derive(Debug)]
pub struct Error;

/// A name/value pair borrowed from a cookie.
pub struct AttrVal<'a>(pub &'a str, pub &'a str);

impl<'a> AttrVal<'a> {
    /// The pair in its `name=value` string form.
    pub fn to_string(&self) -> (r: String)
        ensures
            r@ == self.0@ + "="@ + self.1@,
    {
        let mut r = String::from_str(self.0);
        r.append("=");
        r.append(self.1);
        r
    }
}

/// Holds all the data for a single cookie.
#[derive(Clone, Debug)]
pub struct Cookie {
    pub name: String,
    pub value: String,
    pub expires: Option<Tm>,
    pub max_age: Option<u64>,
    pub domain: Option<String>,
    pub path: Option<String>,
    pub secure: bool,
    pub httponly: bool,
    pub custom: AttrMap,
}

impl View for Cookie {
    type V = CookieModel;

    open spec fn view(&self) -> CookieModel {
        CookieModel {
            name: self.name@,
            value: self.value@,
            expires: self.expires,
            max_age: self.max_age,
            domain: match self.domain {
                Some(d) => Some(d@),
                None => None,
            },
            path: match self.path {
                Some(p) => Some(p@),
                None => None,
            },
            secure: self.secure,
            httponly: self.httponly,
            custom: self.custom@,
        }
    }
}

impl Cookie {
    /// A well-formed cookie value; see [`wf_model`].
    pub open spec fn wf(&self) -> bool {
        wf_model(self@)
    }

    /// Creates a new `Cookie` from name and value strings, with all
    /// optional fields unset and both flags false.
    pub fn new(name: String, value: String) -> (c: Cookie)
        ensures
            c@ == new_model(name@, value@),
            c.wf(),
    {
        let c = Cookie {
            name,
            value,
            expires: None,
            max_age: None,
            domain: None,
            path: None,
            secure: false,
            httponly: false,
            custom: AttrMap::new(),
        };
        proof {
            assert(c@ =~= new_model(c.name@, c.value@));
        }
        c
    }

    /// Attempts to parse a raw attribute string into a `Cookie`. Fails
    /// exactly where the first `;`-segment has no `=` or its name trims
    /// to nothing; every later segment is applied per the attribute
    /// dispatch table, malformed ones silently skipped.
    pub fn parse(s: &str) -> (r: Result<Cookie, Error>)
        ensures
            match r {
                Ok(c) => parse_model(s@) == Some(c@) && c.wf(),
                Err(_) => parse_model(s@) is None,
            },
    {
        let t = trim_str(s);
        let n = t.unicode_len();
        let semi = find_from(t, 0, ';');
        proof {
            match semi {
                Some(j) => lemma_find_idx_some(t@, ';', j as int),
                None => lemma_find_idx_none(t@, ';'),
            }
        }
        let first = match semi {
            Some(i) => t.substring_char(0, i),
            None => t,
        };
        proof {
            match semi {
                Some(i) => assert(first@ =~= t@.take(i as int)),
                None => assert(first@ == t@),
            }
        }
        let ft = trim_str(first);
        let fl = ft.unicode_len();
        let eqp = find_from(ft, 0, '=');
        proof {
            match eqp {
                Some(j) => lemma_find_idx_some(ft@, '=', j as int),
                None => lemma_find_idx_none(ft@, '='),
            }
        }
        let j = match eqp {
            Some(j) => j,
            None => {
                return Err(Error);
            },
        };
        let name_raw = ft.substring_char(0, j);
        let name = trim_str(name_raw);
        let value_raw = ft.substring_char(j + 1, fl);
        let value = trim_str(value_raw);
        proof {
            assert(name_raw@ =~= ft@.take(j as int));
            assert(value_raw@ =~= ft@.skip(j + 1));
        }
        if name.unicode_len() == 0 {
            return Err(Error);
        }
        let mut c = Cookie {
            name: String::from_str(name),
            value: String::from_str(value),
            expires: None,
            max_age: None,
            domain: None,
            path: None,
            secure: false,
            httponly: false,
            custom: AttrMap::new(),
        };
        let ghost base = new_model(trimmed(ft@.take(j as int)), trimmed(ft@.skip(j + 1)));
        proof {
            assert(c@ =~= base);
        }
        if let Some(i0) = semi {
            let ghost rest = t@.skip(i0 + 1);
            let mut pos: usize = i0 + 1;
            loop
                invariant_except_break
                    apply_attrs(c@, t@.skip(pos as int)) == apply_attrs(base, rest),
                invariant
                    i0 + 1 <= pos <= n,
                    n == t@.len(),
                    c.wf(),
                ensures
                    c.wf(),
                    c@ == apply_attrs(base, rest),
                decreases n - pos,
            {
                let ghost rem = t@.skip(pos as int);
                let semi2 = find_from(t, pos, ';');
                proof {
                    match semi2 {
                        Some(j2) => {
                            assert(rem[j2 - pos] == t@[j2 as int]);
                            assert forall|k: int| 0 <= k < j2 - pos implies rem[k] != ';' by {
                                assert(rem[k] == t@[pos + k]);
                            }
                            lemma_find_idx_some(rem, ';', j2 - pos);
                        },
                        None => {
                            assert forall|k: int| 0 <= k < rem.len() implies rem[k] != ';' by {
                                assert(rem[k] == t@[pos + k]);
                            }
                            lemma_find_idx_none(rem, ';');
                        },
                    }
                }
                match semi2 {
                    Some(j2) => {
                        let seg = t.substring_char(pos, j2);
                        proof {
                            assert(seg@ =~= rem.take(j2 - pos));
                        }
                        process_attr(&mut c, seg);
                        proof {
                            assert(rem.skip(j2 - pos + 1) =~= t@.skip(j2 + 1));
                        }
                        pos = j2 + 1;
                    },
                    None => {
                        let seg = t.substring_char(pos, n);
                        proof {
                            assert(seg@ =~= rem);
                        }
                        process_attr(&mut c, seg);
                        break;
                    },
                }
            }
        }
        Ok(c)
    }

    /// Returns the (name, value) pair of this cookie.
    pub fn pair(&self) -> (r: AttrVal)
        ensures
            r.0@ == self.name@,
            r.1@ == self.value@,
    {
        AttrVal(self.name.as_str(), self.value.as_str())
    }

    /// The canonical string form: `name=value`, then `HttpOnly`, `Secure`,
    /// `Path`, `Domain`, `Max-Age` and `Expires` as set, then the custom
    /// attributes in ascending key order.
    #[verifier::rlimit(30)]
    pub fn to_string(&self) -> (r: String)
        requires
            self.wf(),
        ensures
            r@ == format_model(self@),
    {
        let ghost cm = self@;
        let mut r = String::from_str(self.name.as_str());
        r.append("=");
        r.append(self.value.as_str());
        let ghost p0 = cm.name + "="@ + cm.value;
        proof {
            assert(r@ == p0);
        }
        if self.httponly {
            r.append("; HttpOnly");
        }
        let ghost p1 = p0 + flag_str(cm.httponly, "; HttpOnly"@);
        proof {
            assert(r@ =~= p1);
        }
        if self.secure {
            r.append("; Secure");
        }
        let ghost p2 = p1 + flag_str(cm.secure, "; Secure"@);
        proof {
            assert(r@ =~= p2);
        }
        match &self.path {
            Some(p) => {
                r.append("; Path=");
                r.append(p.as_str());
            },
            None => {},
        }
        let ghost p3 = p2 + opt_str(cm.path, "; Path="@);
        proof {
            assert(r@ =~= p3);
        }
        match &self.domain {
            Some(d) => {
                r.append("; Domain=");
                r.append(d.as_str());
            },
            None => {},
        }
        let ghost p4 = p3 + opt_str(cm.domain, "; Domain="@);
        proof {
            assert(r@ =~= p4);
        }
        match &self.max_age {
            Some(n) => {
                r.append("; Max-Age=");
                let ds = u64_str(*n);
                r.append(ds.as_str());
            },
            None => {},
        }
        let ghost p5 = p4 + opt_str(
            match cm.max_age {
                Some(n) => Some(dec_str(n as int)),
                None => None,
            },
            "; Max-Age="@,
        );
        proof {
            assert(r@ =~= p5);
        }
        match &self.expires {
            Some(t) => {
                r.append("; Expires=");
                let es = rfc822_string(t);
                r.append(es.as_str());
            },
            None => {},
        }
        let ghost p6 = p5 + opt_str(
            match cm.expires {
                Some(t) => Some(rfc822_of(t)),
                None => None,
            },
            "; Expires="@,
        );
        proof {
            assert(r@ =~= p6);
        }
        let ghost head = r@;
        let ghost m0 = self.custom@;
        let mlen = self.custom.len();
        let mut i: usize = 0;
        proof {
            assert(custom_str(m0.take(0)) =~= Seq::<char>::empty());
            assert(r@ =~= head + custom_str(m0.take(0)));
        }
        while i < mlen
            invariant
                i <= mlen,
                mlen == m0.len(),
                m0 == self.custom@,
                r@ == head + custom_str(m0.take(i as int)),
            decreases mlen - i,
        {
            let e = self.custom.entry(i);
            r.append("; ");
            r.append(e.0.as_str());
            r.append("=");
            r.append(e.1.as_str());
            proof {
                assert(m0.take(i + 1).drop_last() =~= m0.take(i as int));
                assert(m0.take(i + 1).last() == m0[i as int]);
                assert(r@ =~= head + custom_str(m0.take(i + 1)));
            }
            i = i + 1;
        }
        proof {
            assert(m0.take(mlen as int) =~= m0);
            assert(r@ == p6 + custom_str(cm.custom));
            assert(r@ == format_model(cm));
        }
        r
    }
}

impl PartialEq for Cookie {
    /// Structural equality: every field compared by value.
    fn eq(&self, other: &Cookie) -> (r: bool) {
        let name_eq = self.name == other.name;
        let value_eq = self.value == other.value;
        let expires_eq = match (&self.expires, &other.expires) {
            (Some(a), Some(b)) => *a == *b,
            (None, None) => true,
            _ => false,
        };
        let max_age_eq = match (&self.max_age, &other.max_age) {
            (Some(a), Some(b)) => *a == *b,
            (None, None) => true,
            _ => false,
        };
        let domain_eq = match (&self.domain, &other.domain) {
            (Some(a), Some(b)) => a.eq(b),
            (None, None) => true,
            _ => false,
        };
        let path_eq = match (&self.path, &other.path) {
            (Some(a), Some(b)) => a.eq(b),
            (None, None) => true,
            _ => false,
        };
        let custom_eq = self.custom == other.custom;
        name_eq && value_eq && expires_eq && max_age_eq && domain_eq && path_eq && self.secure
            == other.secure && self.httponly == other.httponly && custom_eq
    }
}

impl vstd::std_specs::cmp::PartialEqSpecImpl for Cookie {
    open spec fn obeys_eq_spec() -> bool {
        true
    }

    open spec fn eq_spec(&self, other: &Cookie) -> bool {
        self@ == other@
    }
}

impl core::str::FromStr for Cookie {
    type Err = Error;

    /// Parsing through `str::parse` behaves exactly as [`Cookie::parse`].
    fn from_str(s: &str) -> (r: Result<Cookie, Error>)
        ensures
            match r {
                Ok(c) => parse_model(s@) == Some(c@) && c.wf(),
                Err(_) => parse_model(s@) is None,
            },
    {
        Cookie::parse(s)
    }
}

} // verus!
