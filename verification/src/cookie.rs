//! HTTP cookies: validation, sanitizing, and serialization of cookie
//! values, and parsing of Cookie / Set-Cookie header lines.
use vstd::prelude::*;

use crate::textproto::trim_spec;
use crate::textproto::trim_string;
use crate::time::Time;
use crate::time::digit;
use crate::time::digit_char;
use crate::time::http_date;
use crate::time::push_char;
use crate::time::rfc1123_ok;
use crate::time::rfc1123_time;

verus! {

/// The low byte of a character, which is what the byte-oriented checks
/// below look at.
pub open spec fn char_byte(c: char) -> u8 {
    ((c as int) % 256) as u8
}

/// The low byte of a character.
pub fn char_to_byte(c: char) -> (b: u8)
    ensures
        b == char_byte(c),
{
    let u = c as u32;
    (u % 256) as u8
}

// ---------------------------------------------------------------------------
// Token characters (RFC 2616 token, as used for cookie names).
// ---------------------------------------------------------------------------

/// Whether `c` may appear in a cookie name: ASCII letters and digits plus
/// the RFC 2616 token punctuation.
pub open spec fn is_token_char(c: char) -> bool {
    ||| '0' <= c && c <= '9'
    ||| 'a' <= c && c <= 'z'
    ||| 'A' <= c && c <= 'Z'
    ||| c == '!' || c == '#' || c == '$' || c == '%' || c == '&' || c == '\'' || c == '*' || c
        == '+' || c == '-' || c == '.' || c == '^' || c == '_' || c == '`' || c == '|' || c == '~'
}

/// Whether `r` is a token character.
pub fn is_token_rune(r: char) -> (b: bool)
    ensures
        b == is_token_char(r),
{
    (r >= '0' && r <= '9') || (r >= 'a' && r <= 'z') || (r >= 'A' && r <= 'Z') || r == '!' || r
        == '#' || r == '$' || r == '%' || r == '&' || r == '\'' || r == '*' || r == '+' || r == '-'
        || r == '.' || r == '^' || r == '_' || r == '`' || r == '|' || r == '~'
}

/// Whether `r` is not a token character.
pub fn is_not_token(r: char) -> (b: bool)
    ensures
        b == !is_token_char(r),
{
    !is_token_rune(r)
}

/// A valid cookie name: nonempty, token characters only.
pub open spec fn spec_cookie_name_valid(s: Seq<char>) -> bool {
    s.len() > 0 && forall|i: int| 0 <= i < s.len() ==> is_token_char(#[trigger] s[i])
}

/// Whether `raw` is a valid cookie name.
pub fn is_cookie_name_valid(raw: &str) -> (b: bool)
    ensures
        b == spec_cookie_name_valid(raw@),
{
    let n = raw.unicode_len();
    if n == 0 {
        return false;
    }
    let mut i: usize = 0;
    while i < n
        invariant
            i <= n,
            n == raw@.len(),
            forall|j: int| 0 <= j < i ==> is_token_char(#[trigger] raw@[j]),
        decreases n - i,
    {
        if is_not_token(raw.get_char(i)) {
            return false;
        }
        i = i + 1;
    }
    true
}

// ---------------------------------------------------------------------------
// Cookie values and paths.
// ---------------------------------------------------------------------------

/// A byte allowed in a cookie value: printable ASCII except the double
/// quote, the semicolon, and the backslash.
pub open spec fn spec_valid_cookie_value_byte(b: u8) -> bool {
    0x20 <= b && b < 0x7f && b != 0x22 && b != 0x3b && b != 0x5c
}

/// Whether `b` may appear in a cookie value.
pub fn valid_cookie_value_byte(b: u8) -> (r: bool)
    ensures
        r == spec_valid_cookie_value_byte(b),
{
    0x20 <= b && b < 0x7f && b != 0x22 && b != 0x3b && b != 0x5c
}

/// A byte allowed in a cookie path: printable ASCII except the semicolon.
pub open spec fn spec_valid_cookie_path_byte(b: u8) -> bool {
    0x20 <= b && b < 0x7f && b != 0x3b
}

/// Whether `b` may appear in a cookie path.
pub fn valid_cookie_path_byte(b: u8) -> (r: bool)
    ensures
        r == spec_valid_cookie_path_byte(b),
{
    0x20 <= b && b < 0x7f && b != 0x3b
}

/// Characters kept by a byte filter.
pub open spec fn kept_chars(s: Seq<char>, p: spec_fn(u8) -> bool) -> Seq<char> {
    s.filter(|c: char| p(char_byte(c)))
}

proof fn lemma_filter_take_step(s: Seq<char>, p: spec_fn(char) -> bool, i: int)
    requires
        0 <= i < s.len(),
    ensures
        s.take(i + 1).filter(p) == if p(s[i]) {
            s.take(i).filter(p).push(s[i])
        } else {
            s.take(i).filter(p)
        },
{
    reveal(Seq::<_>::filter);
    let t = s.take(i);
    let u = t.push(s[i]);
    assert(s.take(i + 1) =~= u);
    assert(u.drop_last() =~= t);
    assert(u.last() == s[i]);
    assert(u.filter(p) == if p(u.last()) {
        u.drop_last().filter(p).push(u.last())
    } else {
        u.drop_last().filter(p)
    });
}

/// Drop every character whose low byte the byte predicate rejects. (A
/// logging shell may also warn, naming the field; logging is outside this
/// library.) The ghost predicate pins down what the executable predicate
/// decides.
fn sanitize_or_warn<F: Fn(u8) -> bool>(
    _field_name: &str,
    valid: F,
    v: &str,
    Ghost(p): Ghost<spec_fn(u8) -> bool>,
) -> (r: String)
    requires
        forall|b: u8| #[trigger] valid.requires((b,)),
        forall|b: u8, res: bool| valid.ensures((b,), res) ==> res == p(b),
    ensures
        r@ == kept_chars(v@, p),
{
    let ghost cp = |c: char| p(char_byte(c));
    let n = v.unicode_len();
    let mut buf = String::new();
    let mut i: usize = 0;
    while i < n
        invariant
            i <= n,
            n == v@.len(),
            forall|b: u8| #[trigger] valid.requires((b,)),
            forall|b: u8, res: bool| valid.ensures((b,), res) ==> res == p(b),
            cp == (|c: char| p(char_byte(c))),
            buf@ == v@.take(i as int).filter(cp),
        decreases n - i,
    {
        let c = v.get_char(i);
        let keep = valid(char_to_byte(c));
        proof {
            lemma_filter_take_step(v@, cp, i as int);
            assert(keep == p(char_byte(v@[i as int])));
        }
        if keep {
            push_char(&mut buf, c);
        }
        i = i + 1;
    }
    proof {
        assert(v@.take(n as int) =~= v@);
        assert(buf@ == kept_chars(v@, p));
    }
    buf
}

/// Characters whose low byte is a valid cookie-value byte, in order.
pub open spec fn sanitized_value_chars(s: Seq<char>) -> Seq<char> {
    kept_chars(s, |b: u8| spec_valid_cookie_value_byte(b))
}

/// Characters whose low byte is a valid cookie-path byte, in order.
pub open spec fn sanitized_path_chars(s: Seq<char>) -> Seq<char> {
    kept_chars(s, |b: u8| spec_valid_cookie_path_byte(b))
}

proof fn lemma_filter_congruent(s: Seq<char>, p: spec_fn(char) -> bool, q: spec_fn(char) -> bool)
    requires
        forall|c: char| #[trigger] p(c) == q(c),
    ensures
        s.filter(p) == s.filter(q),
    decreases s.len(),
{
    reveal(Seq::<_>::filter);
    if s.len() == 0 {
        assert(s.filter(p) == s);
        assert(s.filter(q) == s);
    } else {
        lemma_filter_congruent(s.drop_last(), p, q);
        assert(p(s.last()) == q(s.last()));
        assert(s.filter(p) == if p(s.last()) {
            s.drop_last().filter(p).push(s.last())
        } else {
            s.drop_last().filter(p)
        });
        assert(s.filter(q) == if q(s.last()) {
            s.drop_last().filter(q).push(s.last())
        } else {
            s.drop_last().filter(q)
        });
    }
}

/// The serialization of a cookie value: dropped invalid bytes, and quoted
/// when the result contains a space or a comma.
pub open spec fn spec_sanitize_cookie_value(s: Seq<char>) -> Seq<char> {
    let kept = sanitized_value_chars(s);
    if kept.len() == 0 {
        kept
    } else if kept.contains(' ') || kept.contains(',') {
        seq!['"'] + kept + seq!['"']
    } else {
        kept
    }
}

/// Produce a suitable cookie value from `v`: invalid bytes are dropped, and
/// a value holding spaces or commas is double-quoted.
pub fn sanitize_cookie_value(v: &str) -> (r: String)
    ensures
        r@ == spec_sanitize_cookie_value(v@),
{
    let s = sanitize_or_warn(
        "Cookie.Value",
        valid_cookie_value_byte,
        v,
        Ghost(|b: u8| spec_valid_cookie_value_byte(b)),
    );
    proof {
        lemma_filter_congruent(
            v@,
            |c: char| (|b: u8| spec_valid_cookie_value_byte(b))(char_byte(c)),
            |c: char| spec_valid_cookie_value_byte(char_byte(c)),
        );
        assert(s@ == sanitized_value_chars(v@));
    }
    if s.as_str().is_empty() {
        return s;
    }
    if contains_char(s.as_str(), ' ') || contains_char(s.as_str(), ',') {
        let mut out = String::new();
        push_char(&mut out, '"');
        out.append(s.as_str());
        push_char(&mut out, '"');
        proof {
            assert(out@ =~= seq!['"'] + s@ + seq!['"']);
        }
        out
    } else {
        s
    }
}

/// The serialization of a cookie path: invalid bytes dropped.
pub fn sanitize_cookie_path(v: &str) -> (r: String)
    ensures
        r@ == sanitized_path_chars(v@),
{
    let s = sanitize_or_warn(
        "Cookie.Path",
        valid_cookie_path_byte,
        v,
        Ghost(|b: u8| spec_valid_cookie_path_byte(b)),
    );
    proof {
        lemma_filter_congruent(
            v@,
            |c: char| (|b: u8| spec_valid_cookie_path_byte(b))(char_byte(c)),
            |c: char| spec_valid_cookie_path_byte(char_byte(c)),
        );
    }
    s
}

/// Whether the string contains the character.
pub fn contains_char(s: &str, c: char) -> (r: bool)
    ensures
        r == s@.contains(c),
{
    let n = s.unicode_len();
    let mut i: usize = 0;
    while i < n
        invariant
            i <= n,
            n == s@.len(),
            forall|j: int| 0 <= j < i ==> s@[j] != c,
        decreases n - i,
    {
        if s.get_char(i) == c {
            assert(s@[i as int] == c);
            return true;
        }
        i = i + 1;
    }
    assert(!s@.contains(c));
    false
}

// ---------------------------------------------------------------------------
// Cookie value parsing (quote stripping).
// ---------------------------------------------------------------------------

/// A sequence without its leading characters satisfying `p`.
pub open spec fn drop_while_front(s: Seq<char>, p: spec_fn(char) -> bool) -> Seq<char>
    decreases s.len(),
{
    if s.len() > 0 && p(s[0]) {
        drop_while_front(s.skip(1), p)
    } else {
        s
    }
}

/// A sequence without its trailing characters satisfying `p`.
pub open spec fn drop_while_back(s: Seq<char>, p: spec_fn(char) -> bool) -> Seq<char>
    decreases s.len(),
{
    if s.len() > 0 && p(s[s.len() - 1]) {
        drop_while_back(s.drop_last(), p)
    } else {
        s
    }
}

proof fn lemma_drop_front_at(s: Seq<char>, p: spec_fn(char) -> bool, lo: int)
    requires
        0 <= lo <= s.len(),
        forall|j: int| 0 <= j < lo ==> p(#[trigger] s[j]),
        lo == s.len() || !p(s[lo]),
    ensures
        drop_while_front(s, p) == s.skip(lo),
    decreases lo,
{
    if lo == 0 {
        assert(s.skip(0) =~= s);
    } else {
        lemma_drop_front_at(s.skip(1), p, lo - 1);
        assert(s.skip(1).skip(lo - 1) =~= s.skip(lo));
    }
}

proof fn lemma_drop_back_at(s: Seq<char>, p: spec_fn(char) -> bool, hi: int)
    requires
        0 <= hi <= s.len(),
        forall|j: int| hi <= j < s.len() ==> p(#[trigger] s[j]),
        hi == 0 || !p(s[hi - 1]),
    ensures
        drop_while_back(s, p) == s.take(hi),
    decreases s.len() - hi,
{
    if hi == s.len() {
        assert(s.take(hi) =~= s);
    } else {
        lemma_drop_back_at(s.drop_last(), p, hi);
        assert(s.drop_last().take(hi) =~= s.take(hi));
    }
}

/// All double quotes removed from both ends, repeatedly.
pub open spec fn strip_quotes(s: Seq<char>) -> Seq<char> {
    drop_while_back(drop_while_front(s, |c: char| c == '"'), |c: char| c == '"')
}

/// The raw value with its surrounding quotes removed, when quoting is
/// allowed and present.
pub open spec fn cookie_value_stripped(s: Seq<char>, allow_double_quote: bool) -> Seq<char> {
    if allow_double_quote && s.len() > 1 && s[0] == '"' && s[s.len() - 1] == '"' {
        strip_quotes(s)
    } else {
        s
    }
}

/// Every character's low byte is a valid cookie-value byte.
pub open spec fn all_valid_value_bytes(s: Seq<char>) -> bool {
    forall|i: int| 0 <= i < s.len() ==> spec_valid_cookie_value_byte(char_byte(#[trigger] s[i]))
}

/// Strip surrounding quotes if allowed, then accept the value only if every
/// byte is a valid cookie-value byte; a rejected value comes back empty.
pub fn parse_cookie_value(raw: &str, allow_double_quote: bool) -> (r: (&str, bool))
    ensures
        r.1 == all_valid_value_bytes(cookie_value_stripped(raw@, allow_double_quote)),
        r.0@ == (if r.1 {
            cookie_value_stripped(raw@, allow_double_quote)
        } else {
            Seq::<char>::empty()
        }),
{
    let n = raw.unicode_len();
    let ghost target = cookie_value_stripped(raw@, allow_double_quote);
    let mut lo: usize = 0;
    let mut hi: usize = n;
    if allow_double_quote && n > 1 && raw.get_char(0) == '"' && raw.get_char(n - 1) == '"' {
        while lo < hi && raw.get_char(lo) == '"'
            invariant
                lo <= hi <= n,
                n == raw@.len(),
                forall|j: int| 0 <= j < lo ==> #[trigger] raw@[j] == '"',
                forall|j: int| hi <= j < n ==> #[trigger] raw@[j] == '"',
            decreases hi - lo,
        {
            lo = lo + 1;
        }
        while hi > lo && raw.get_char(hi - 1) == '"'
            invariant
                lo <= hi <= n,
                n == raw@.len(),
                forall|j: int| 0 <= j < lo ==> #[trigger] raw@[j] == '"',
                forall|j: int| hi <= j < n ==> #[trigger] raw@[j] == '"',
            decreases hi,
        {
            hi = hi - 1;
        }
        proof {
            let q = |c: char| c == '"';
            if lo == hi {
                lemma_drop_front_at(raw@, q, lo as int);
                let t = raw@.skip(lo as int);
                assert(forall|j: int| 0 <= j < t.len() ==> q(#[trigger] t[j]));
                lemma_drop_back_at(t, q, 0);
                assert(t.take(0) =~= raw@.subrange(lo as int, hi as int));
                assert(target == raw@.subrange(lo as int, hi as int));
            } else {
                lemma_drop_front_at(raw@, q, lo as int);
                let t = raw@.skip(lo as int);
                assert(!q(t[hi - lo - 1]));
                lemma_drop_back_at(t, q, hi - lo);
                assert(t.take(hi - lo) =~= raw@.subrange(lo as int, hi as int));
                assert(target == raw@.subrange(lo as int, hi as int));
            }
        }
    } else {
        proof {
            assert(raw@.subrange(0, n as int) =~= raw@);
            assert(target == raw@.subrange(lo as int, hi as int));
        }
    }
    let stripped = raw.substring_char(lo, hi);
    let m = hi - lo;
    let ghost sv = target;
    let mut i: usize = 0;
    while i < m
        invariant
            i <= m,
            m == sv.len(),
            stripped@ == sv,
            sv == cookie_value_stripped(raw@, allow_double_quote),
            forall|j: int|
                0 <= j < i ==> spec_valid_cookie_value_byte(char_byte(#[trigger] sv[j])),
        decreases m - i,
    {
        if !valid_cookie_value_byte(char_to_byte(stripped.get_char(i))) {
            proof {
                assert(!spec_valid_cookie_value_byte(char_byte(sv[i as int])));
                assert(!all_valid_value_bytes(sv));
                assert(sv == cookie_value_stripped(raw@, allow_double_quote));
                assert(!all_valid_value_bytes(cookie_value_stripped(raw@, allow_double_quote)));
                reveal_strlit("");
                assert(""@ =~= Seq::<char>::empty());
            }
            return ("", false);
        }
        i = i + 1;
    }
    (stripped, true)
}

// ---------------------------------------------------------------------------
// Domain names.
// ---------------------------------------------------------------------------

/// One step of the domain-name scanner: `last` is the previous character
/// ('.' before the first), `partlen` the length of the current label, `ok`
/// whether a letter has been seen.
pub open spec fn domain_step(last: char, partlen: int, ok: bool, c: char) -> Option<
    (char, int, bool),
> {
    if ('a' <= c && c <= 'z') || ('A' <= c && c <= 'Z') {
        Some((c, partlen + 1, true))
    } else if '0' <= c && c <= '9' {
        Some((c, partlen + 1, ok))
    } else if c == '-' {
        if last == '.' {
            None
        } else {
            Some((c, partlen + 1, ok))
        }
    } else if c == '.' {
        if last == '.' || last == '-' {
            None
        } else if partlen > 63 || partlen == 0 {
            None
        } else {
            Some((c, 0, ok))
        }
    } else {
        None
    }
}

/// Scan the domain from position `i` onward.
pub open spec fn domain_scan(s: Seq<char>, i: int, last: char, partlen: int, ok: bool) -> Option<
    (char, int, bool),
>
    decreases s.len() - i,
{
    if i < 0 || i >= s.len() {
        Some((last, partlen, ok))
    } else {
        match domain_step(last, partlen, ok, s[i]) {
            None => None,
            Some(st) => domain_scan(s, i + 1, st.0, st.1, st.2),
        }
    }
}

/// A valid domain name, optionally with one leading dot: letters, digits,
/// dashes and dots, labels of 1 to 63 characters not starting or ending
/// with a dash, at least one letter, and at most 255 characters.
pub open spec fn spec_is_cookie_domain_name(s: Seq<char>) -> bool {
    if s.len() == 0 || s.len() > 255 {
        false
    } else {
        let t = if s[0] == '.' {
            s.skip(1)
        } else {
            s
        };
        match domain_scan(t, 0, '.', 0, false) {
            None => false,
            Some(st) => !(st.0 == '-' || st.1 > 63) && st.2,
        }
    }
}

/// Whether `s` is a valid domain name, or one with a leading dot.
pub fn is_cookie_domain_name(s: &str) -> (r: bool)
    ensures
        r == spec_is_cookie_domain_name(s@),
{
    let n = s.unicode_len();
    if n == 0 {
        return false;
    }
    if n > 255 {
        return false;
    }
    let start: usize = if s.get_char(0) == '.' {
        1
    } else {
        0
    };
    let ghost t = if s@[0] == '.' {
        s@.skip(1)
    } else {
        s@
    };
    let mut last: char = '.';
    let mut partlen: usize = 0;
    let mut ok = false;
    let mut i: usize = start;
    while i < n
        invariant
            start <= i <= n,
            n == s@.len(),
            n <= 255,
            start == (if s@[0] == '.' {
                1int
            } else {
                0int
            }),
            t == (if s@[0] == '.' {
                s@.skip(1)
            } else {
                s@
            }),
            partlen <= i,
            domain_scan(t, 0, '.', 0, false) == domain_scan(
                t,
                i - start,
                last,
                partlen as int,
                ok,
            ),
        decreases n - i,
    {
        let c = s.get_char(i);
        proof {
            assert(t[i - start] == s@[i as int]);
        }
        if (c >= 'a' && c <= 'z') || (c >= 'A' && c <= 'Z') {
            ok = true;
            partlen = partlen + 1;
        } else if c >= '0' && c <= '9' {
            partlen = partlen + 1;
        } else if c == '-' {
            if last == '.' {
                return false;
            }
            partlen = partlen + 1;
        } else if c == '.' {
            if last == '.' || last == '-' {
                return false;
            }
            if partlen > 63 || partlen == 0 {
                return false;
            }
            partlen = 0;
        } else {
            return false;
        }
        last = c;
        i = i + 1;
    }
    !(last == '-' || partlen > 63) && ok
}

/// Whether the string contains no colon: accepted as a host-only domain
/// even when it is not a well-formed domain name.
pub open spec fn spec_valid_cookie_domain(s: Seq<char>) -> bool {
    spec_is_cookie_domain_name(s) || (s.len() > 0 && !s.contains(':'))
}

/// Whether `v` may be sent as a cookie domain attribute.
pub fn valid_cookie_domain(v: &str) -> (r: bool)
    ensures
        r == spec_valid_cookie_domain(v@),
{
    if is_cookie_domain_name(v) {
        return true;
    }
    if !v.is_empty() && !contains_char(v, ':') {
        return true;
    }
    false
}

// ---------------------------------------------------------------------------
// The cookie itself.
// ---------------------------------------------------------------------------

/// SameSite lets a server keep a cookie out of cross-site requests. All
/// four mode constants below share one value, so serialization never
/// emits the attribute.
pub type SameSite = i32;

#[allow(non_upper_case_globals)]
pub const SameSiteDefaultMode: SameSite = 1;

#[allow(non_upper_case_globals)]
pub const SameSiteLaxMode: SameSite = 1;

#[allow(non_upper_case_globals)]
pub const SameSiteStrictMode: SameSite = 1;

#[allow(non_upper_case_globals)]
pub const SameSiteNoneMode: SameSite = 1;

/// An HTTP cookie as carried in Cookie and Set-Cookie headers.
#[derive(Debug, Eq, PartialEq)]
pub struct Cookie {
    pub name: String,
    pub value: String,
    pub path: String,
    pub domain: String,
    pub expires: Time,
    pub raw_expires: String,
    /// MaxAge=0 means no Max-Age attribute was present; negative means the
    /// cookie is to be deleted now; positive is the attribute in seconds.
    pub max_age: i32,
    pub secure: bool,
    pub http_only: bool,
    pub same_site: SameSite,
    pub raw: String,
    /// Raw text of unparsed attribute-value pairs.
    pub unparsed: Vec<String>,
}

/// The mathematical image of a cookie: every text field as its character
/// sequence.
#[verifier::ext_equal]
pub struct CookieModel {
    pub name: Seq<char>,
    pub value: Seq<char>,
    pub path: Seq<char>,
    pub domain: Seq<char>,
    pub expires: Time,
    pub raw_expires: Seq<char>,
    pub max_age: i32,
    pub secure: bool,
    pub http_only: bool,
    pub same_site: SameSite,
    pub raw: Seq<char>,
    pub unparsed: Seq<Seq<char>>,
}

impl View for Cookie {
    type V = CookieModel;

    open spec fn view(&self) -> CookieModel {
        CookieModel {
            name: self.name@,
            value: self.value@,
            path: self.path@,
            domain: self.domain@,
            expires: self.expires,
            raw_expires: self.raw_expires@,
            max_age: self.max_age,
            secure: self.secure,
            http_only: self.http_only,
            same_site: self.same_site,
            raw: self.raw@,
            unparsed: self.unparsed@.map(|k: int, u: String| u@),
        }
    }
}

/// Whether `t` is a valid cookie expires-value: RFC 6265 does not allow
/// years before 1601.
pub fn valid_cookie_expires(t: &Time) -> (r: bool)
    ensures
        r == (t.year >= 1601),
{
    t.year() >= 1601
}

/// The decimal digits of a nonnegative number, most significant first.
pub open spec fn dec_str(n: int) -> Seq<char>
    decreases n,
{
    if n < 10 {
        seq![digit(n)]
    } else {
        dec_str(n / 10).push(digit(n % 10))
    }
}

/// Append the decimal digits of `n`.
fn push_decimal(s: &mut String, n: u32)
    ensures
        final(s)@ == old(s)@ + dec_str(n as int),
    decreases n,
{
    if n >= 10 {
        push_decimal(s, n / 10);
    }
    push_char(s, digit_char((n % 10) as u8));
    proof {
        assert(final(s)@ =~= old(s)@ + dec_str(n as int));
    }
}

/// The Set-Cookie serialization of a cookie. A cookie whose name is a
/// *valid* cookie name serializes to the empty string: the guard is
/// inverted, and the contract states it exactly as the code has it.
pub open spec fn spec_cookie_string(m: CookieModel) -> Seq<char> {
    if spec_cookie_name_valid(m.name) {
        Seq::empty()
    } else {
        m.name + seq!['='] + spec_sanitize_cookie_value(m.value) + (if m.path.len() > 0 {
            "; Path="@ + sanitized_path_chars(m.path)
        } else {
            Seq::empty()
        }) + (if m.domain.len() > 0 && spec_valid_cookie_domain(m.domain) {
            "; Domain="@ + (if m.domain[0] == '.' {
                m.domain.skip(1)
            } else {
                m.domain
            })
        } else {
            Seq::empty()
        }) + (if m.expires.year >= 1601 {
            "; Expires="@ + http_date(m.expires)
        } else {
            Seq::empty()
        }) + (if m.max_age > 0 {
            "; Max-Age="@ + dec_str(m.max_age as int)
        } else if m.max_age < 0 {
            "; Max-Age=0"@
        } else {
            Seq::empty()
        }) + (if m.http_only {
            "; HttpOnly"@
        } else {
            Seq::empty()
        }) + (if m.secure {
            "; Secure"@
        } else {
            Seq::empty()
        })
    }
}

impl Cookie {
    /// Serialize this cookie for a Set-Cookie header. A domain with illegal
    /// characters is dropped (host-only cookie); a leading dot is not sent;
    /// the SameSite attribute is never emitted (all its modes share one
    /// constant).
    #[verifier::rlimit(60)]
    pub fn string(&self) -> (r: String)
        requires
            self.expires.year >= 1601 ==> self.expires.wf(),
        ensures
            r@ == spec_cookie_string(self@),
    {
        if is_cookie_name_valid(self.name.as_str()) {
            return String::new();
        }
        let mut b = String::new();
        b.append(self.name.as_str());
        push_char(&mut b, '=');
        let sv = sanitize_cookie_value(self.value.as_str());
        b.append(sv.as_str());
        let ghost p0 = self@.name + seq!['='] + spec_sanitize_cookie_value(self@.value);
        proof {
            assert(b@ =~= p0);
        }
        if !self.path.as_str().is_empty() {
            b.append("; Path=");
            let sp = sanitize_cookie_path(self.path.as_str());
            b.append(sp.as_str());
        }
        let ghost p1 = p0 + (if self@.path.len() > 0 {
            "; Path="@ + sanitized_path_chars(self@.path)
        } else {
            Seq::<char>::empty()
        });
        proof {
            assert(b@ =~= p1);
        }
        if !self.domain.as_str().is_empty() {
            if valid_cookie_domain(self.domain.as_str()) {
                b.append("; Domain=");
                if self.domain.as_str().get_char(0) == '.' {
                    let d = self.domain.as_str().substring_char(1, self.domain.as_str().unicode_len());
                    b.append(d);
                    proof {
                        assert(self@.domain.subrange(1, self@.domain.len() as int) =~= self@.domain.skip(1));
                    }
                } else {
                    b.append(self.domain.as_str());
                }
            }
        }
        let ghost p2 = p1 + (if self@.domain.len() > 0 && spec_valid_cookie_domain(self@.domain) {
            "; Domain="@ + (if self@.domain[0] == '.' {
                self@.domain.skip(1)
            } else {
                self@.domain
            })
        } else {
            Seq::<char>::empty()
        });
        proof {
            assert(b@ =~= p2);
        }
        if valid_cookie_expires(&self.expires) {
            b.append("; Expires=");
            let e = self.expires.utc().http_format();
            b.append(e.as_str());
        }
        let ghost p3 = p2 + (if self@.expires.year >= 1601 {
            "; Expires="@ + http_date(self@.expires)
        } else {
            Seq::<char>::empty()
        });
        proof {
            assert(b@ =~= p3);
        }
        if self.max_age > 0 {
            b.append("; Max-Age=");
            push_decimal(&mut b, self.max_age as u32);
        } else if self.max_age < 0 {
            b.append("; Max-Age=0");
        }
        if self.http_only {
            b.append("; HttpOnly");
        }
        if self.secure {
            b.append("; Secure");
        }
        proof {
            assert(b@ =~= spec_cookie_string(self@));
        }
        b
    }
}

/// Serialize the cookie as for a Set-Cookie header and discard the
/// result; the cookie itself is left unchanged. Writing the header into a
/// response belongs to the server shell around this library.
pub fn set_cookie(cookie: &mut Cookie)
    requires
        old(cookie).expires.year >= 1601 ==> old(cookie).expires.wf(),
    ensures
        *final(cookie) == *old(cookie),
{
    let _serialized = cookie.string();
}

// ---------------------------------------------------------------------------
// Header access and Cookie-header parsing.
// ---------------------------------------------------------------------------

#[verifier::external_type_specification]
#[verifier::external_body]
pub struct ExHeaderValue(http::HeaderValue);

#[verifier::external_type_specification]
#[verifier::external_body]
#[verifier::reject_recursive_types(T)]
pub struct ExHeaderMap<T>(http::HeaderMap<T>);

/// What the header map holds under one name: the values in insertion
/// order, each decoded as visible ASCII (a value with other bytes decodes
/// to the empty string; the decoding error carries no information here).
pub uninterp spec fn spec_header_values(h: http::HeaderMap, name: Seq<char>) -> Seq<Seq<char>>;

/// Relies on http::HeaderMap::get_all (the values mapped to one name, in
/// insertion order) and http::HeaderValue::to_str (the value as a str when
/// it is visible ASCII); a value that fails to decode becomes the empty
/// string.
#[verifier::external_body]
fn header_values(h: &http::HeaderMap, name: &str) -> (r: Vec<String>)
    ensures
        r@.map_values(|u: String| u@) == spec_header_values(*h, name@),
{
    let mut v = Vec::new();
    for val in h.get_all(name) {
        match val.to_str() {
            Ok(u) => v.push(u.to_string()),
            Err(_) => v.push(String::new()),
        }
    }
    v
}

/// The position of the first occurrence of `c`.
pub open spec fn find_char(s: Seq<char>, c: char) -> Option<int>
    decreases s.len(),
{
    if s.len() == 0 {
        None
    } else if s[0] == c {
        Some(0)
    } else {
        match find_char(s.skip(1), c) {
            Some(k) => Some(k + 1),
            None => None,
        }
    }
}

proof fn lemma_find_char_at(s: Seq<char>, c: char, k: int)
    requires
        0 <= k <= s.len(),
        forall|j: int| 0 <= j < k ==> s[j] != c,
        k == s.len() || s[k] == c,
    ensures
        find_char(s, c) == (if k < s.len() {
            Some(k)
        } else {
            None::<int>
        }),
    decreases k,
{
    if k == 0 {
    } else {
        lemma_find_char_at(s.skip(1), c, k - 1);
    }
}

/// First position of `c` in the string.
fn find_char_str(s: &str, c: char) -> (r: Option<usize>)
    ensures
        match r {
            Some(j) => j < s@.len() && find_char(s@, c) == Some(j as int),
            None => find_char(s@, c) is None,
        },
{
    let n = s.unicode_len();
    let mut i: usize = 0;
    while i < n
        invariant
            i <= n,
            n == s@.len(),
            forall|j: int| 0 <= j < i ==> s@[j] != c,
        decreases n - i,
    {
        if s.get_char(i) == c {
            proof {
                lemma_find_char_at(s@, c, i as int);
            }
            return Some(i);
        }
        i = i + 1;
    }
    proof {
        lemma_find_char_at(s@, c, n as int);
    }
    None
}

/// Case-insensitive ASCII equality against an already-lowercase name.
pub open spec fn lower_eq(a: char, b: char) -> bool {
    b == a || ('A' <= a && a <= 'Z' && a as int + 32 == b as int)
}

/// `s`, ASCII-lowercased, equals the (lowercase) `t`.
pub open spec fn spec_eq_lower(s: Seq<char>, t: Seq<char>) -> bool {
    s.len() == t.len() && forall|i: int| 0 <= i < s.len() ==> lower_eq(#[trigger] s[i], t[i])
}

/// Whether `s` equals `t` after ASCII-lowercasing `s` (`t` must already be
/// lowercase).
fn eq_ascii_lower(s: &str, t: &str) -> (r: bool)
    ensures
        r == spec_eq_lower(s@, t@),
{
    let n = s.unicode_len();
    let m = t.unicode_len();
    if n != m {
        return false;
    }
    let mut i: usize = 0;
    while i < n
        invariant
            i <= n,
            n == s@.len(),
            n == t@.len(),
            forall|j: int| 0 <= j < i ==> lower_eq(#[trigger] s@[j], t@[j]),
        decreases n - i,
    {
        let a = s.get_char(i);
        let b = t.get_char(i);
        let au = a as u32;
        let ok = a == b || (a >= 'A' && a <= 'Z' && au + 32 == b as u32);
        if !ok {
            proof {
                assert(!lower_eq(s@[i as int], t@[i as int]));
            }
            return false;
        }
        i = i + 1;
    }
    true
}

/// One cookie pair parsed from one Cookie header line: the first
/// semicolon-separated part, when it carries a valid name and value and
/// passes the filter.
pub open spec fn spec_cookie_of_line(line: Seq<char>, filter: Seq<char>) -> Option<
    (Seq<char>, Seq<char>),
> {
    let l = trim_spec(line);
    if l.len() == 0 {
        None
    } else {
        let part0 = match find_char(l, ';') {
            Some(k) => l.take(k),
            None => l,
        };
        let part = trim_spec(part0);
        if part.len() == 0 {
            None
        } else {
            let nv = match find_char(part, '=') {
                Some(j) => (part.take(j), part.skip(j + 1)),
                None => (part, Seq::<char>::empty()),
            };
            if !spec_cookie_name_valid(nv.0) {
                None
            } else if filter.len() > 0 && filter != nv.0 {
                None
            } else {
                let stripped = cookie_value_stripped(nv.1, true);
                if all_valid_value_bytes(stripped) {
                    Some((nv.0, stripped))
                } else {
                    None
                }
            }
        }
    }
}

/// The cookie pairs of a sequence of Cookie header lines, in order.
pub open spec fn spec_read_cookies(lines: Seq<Seq<char>>, filter: Seq<char>) -> Seq<
    (Seq<char>, Seq<char>),
>
    decreases lines.len(),
{
    if lines.len() == 0 {
        Seq::empty()
    } else {
        let rest = spec_read_cookies(lines.skip(1), filter);
        match spec_cookie_of_line(lines[0], filter) {
            Some(nv) => seq![nv] + rest,
            None => rest,
        }
    }
}

proof fn lemma_read_cookies_push(lines: Seq<Seq<char>>, line: Seq<char>, filter: Seq<char>)
    ensures
        spec_read_cookies(lines.push(line), filter) == spec_read_cookies(lines, filter) + (
        match spec_cookie_of_line(line, filter) {
            Some(nv) => seq![nv],
            None => Seq::<(Seq<char>, Seq<char>)>::empty(),
        }),
    decreases lines.len(),
{
    let tailpart = (match spec_cookie_of_line(line, filter) {
        Some(nv) => seq![nv],
        None => Seq::<(Seq<char>, Seq<char>)>::empty(),
    });
    if lines.len() == 0 {
        assert(lines.push(line)[0] == line);
        assert(lines.push(line).skip(1) =~= Seq::<Seq<char>>::empty());
        assert(spec_read_cookies(Seq::<Seq<char>>::empty(), filter) == Seq::<(
            Seq<char>,
            Seq<char>,
        )>::empty());
        assert(spec_read_cookies(lines.push(line), filter) =~~= spec_read_cookies(lines, filter)
            + tailpart);
    } else {
        assert(lines.push(line).skip(1) =~= lines.skip(1).push(line));
        lemma_read_cookies_push(lines.skip(1), line, filter);
        assert(lines.push(line)[0] == lines[0]);
        assert(spec_read_cookies(lines.push(line), filter) =~~= spec_read_cookies(lines, filter)
            + tailpart);
    }
}

/// A freshly parsed cookie holding just a name and a value.
pub open spec fn plain_cookie(name: Seq<char>, value: Seq<char>, raw: Seq<char>) -> CookieModel {
    CookieModel {
        name: name,
        value: value,
        path: Seq::empty(),
        domain: Seq::empty(),
        expires: Time { year: 1, month: 1, day: 1, hour: 0, minute: 0, second: 0, weekday: 1 },
        raw_expires: Seq::empty(),
        max_age: 0,
        secure: false,
        http_only: false,
        same_site: 0,
        raw: raw,
        unparsed: Seq::empty(),
    }
}

/// Parse one Cookie header line: its first semicolon-separated part, when
/// it carries a valid name and value and passes the filter.
fn cookie_of_line(line: &str, filter: &str) -> (r: Option<Cookie>)
    ensures
        match (r, spec_cookie_of_line(line@, filter@)) {
            (Some(c), Some(nv)) => c@ == plain_cookie(nv.0, nv.1, Seq::<char>::empty()),
            (None, None) => true,
            _ => false,
        },
{
    let trimmed = trim_string(line);
    if trimmed.as_str().is_empty() {
        return None;
    }
    let tn = trimmed.as_str().unicode_len();
    let part_end = match find_char_str(trimmed.as_str(), ';') {
        Some(k) => k,
        None => tn,
    };
    let part_raw = trimmed.as_str().substring_char(0, part_end);
    proof {
        if find_char(trimmed@, ';') is Some {
            let k = find_char(trimmed@, ';').unwrap();
            assert(part_end as int == k);
            assert(trimmed@.subrange(0, k) =~= trimmed@.take(k));
        } else {
            assert(trimmed@.subrange(0, tn as int) =~= trimmed@);
        }
    }
    let part = trim_string(part_raw);
    if part.as_str().is_empty() {
        return None;
    }
    let pn = part.as_str().unicode_len();
    let (name, val) = match find_char_str(part.as_str(), '=') {
        Some(j) => {
            proof {
                let jj = find_char(part@, '=').unwrap();
                assert(j as int == jj);
                assert(part@.subrange(0, jj) =~= part@.take(jj));
                assert(part@.subrange(jj + 1, pn as int) =~= part@.skip(jj + 1));
            }
            let name = part.as_str().substring_char(0, j).to_owned();
            let val = part.as_str().substring_char(j + 1, pn).to_owned();
            (name, val)
        },
        None => {
            proof {
                reveal_strlit("");
                assert(""@ =~= Seq::<char>::empty());
            }
            (part.as_str().to_owned(), "".to_owned())
        },
    };
    if !is_cookie_name_valid(name.as_str()) {
        return None;
    }
    if !filter.is_empty() && !filter_matches(filter, name.as_str()) {
        return None;
    }
    let (value, ok) = parse_cookie_value(val.as_str(), true);
    if !ok {
        return None;
    }
    let c = Cookie {
        name,
        value: value.to_owned(),
        path: String::new(),
        domain: String::new(),
        expires: Time::default(),
        raw_expires: String::new(),
        max_age: 0,
        secure: false,
        http_only: false,
        same_site: 0,
        raw: String::new(),
        unparsed: Vec::new(),
    };
    proof {
        let nv = spec_cookie_of_line(line@, filter@).unwrap();
        assert(c@.unparsed =~= Seq::<Seq<char>>::empty());
        assert(c@ =~~= plain_cookie(nv.0, nv.1, Seq::<char>::empty()));
    }
    Some(c)
}

/// Parse all Cookie header values of `h`; when `filter` is nonempty, only
/// cookies of that name are returned. Each returned cookie carries only a
/// name and a value (one pair per header line, from its first
/// semicolon-separated part).
pub fn read_cookies(h: http::HeaderMap, filter: &str) -> (r: Vec<Cookie>)
    ensures
        r@.map_values(|c: Cookie| c@) == spec_read_cookies(
            spec_header_values(h, "Cookie"@),
            filter@,
        ).map_values(|nv: (Seq<char>, Seq<char>)| plain_cookie(nv.0, nv.1, Seq::<char>::empty())),
{
    let lines = header_values(&h, "Cookie");
    let ghost lv = lines@.map_values(|u: String| u@);
    let mut cookies: Vec<Cookie> = Vec::new();
    let mut i: usize = 0;
    proof {
        assert(lv.take(0) =~= Seq::<Seq<char>>::empty());
        assert(cookies@.map_values(|c: Cookie| c@) =~~= spec_read_cookies(
            lv.take(0),
            filter@,
        ).map_values(|nv: (Seq<char>, Seq<char>)| plain_cookie(nv.0, nv.1, Seq::<char>::empty())));
    }
    while i < lines.len()
        invariant
            i <= lines.len(),
            lv == lines@.map_values(|u: String| u@),
            cookies@.map_values(|c: Cookie| c@) == spec_read_cookies(
                lv.take(i as int),
                filter@,
            ).map_values(
                |nv: (Seq<char>, Seq<char>)| plain_cookie(nv.0, nv.1, Seq::<char>::empty()),
            ),
        decreases lines.len() - i,
    {
        let ghost line_v = lv[i as int];
        let ghost cookies_pre = cookies@;
        let parsed = cookie_of_line(lines[i].as_str(), filter);
        proof {
            lemma_read_cookies_push(lv.take(i as int), line_v, filter@);
            assert(lv.take(i as int).push(line_v) =~= lv.take(i + 1));
        }
        match parsed {
            Some(c) => {
                cookies.push(c);
                proof {
                    let f = |c: Cookie| c@;
                    let g = |nv: (Seq<char>, Seq<char>)|
                        plain_cookie(nv.0, nv.1, Seq::<char>::empty());
                    assert(cookies@.map_values(f) =~~= cookies_pre.map_values(f).push(c@));
                    let nv = spec_cookie_of_line(line_v, filter@).unwrap();
                    assert(spec_read_cookies(lv.take(i + 1), filter@) =~~= spec_read_cookies(
                        lv.take(i as int),
                        filter@,
                    ).push(nv));
                    assert(spec_read_cookies(lv.take(i + 1), filter@).map_values(g)
                        =~~= spec_read_cookies(lv.take(i as int), filter@).map_values(g).push(
                        g(nv),
                    ));
                    assert(cookies@.map_values(f) =~~= spec_read_cookies(
                        lv.take(i + 1),
                        filter@,
                    ).map_values(g));
                }
            },
            None => {
                proof {
                    let f = |c: Cookie| c@;
                    let g = |nv: (Seq<char>, Seq<char>)|
                        plain_cookie(nv.0, nv.1, Seq::<char>::empty());
                    assert(spec_read_cookies(lv.take(i + 1), filter@) =~~= spec_read_cookies(
                        lv.take(i as int),
                        filter@,
                    ));
                    assert(cookies@.map_values(f) =~~= spec_read_cookies(
                        lv.take(i + 1),
                        filter@,
                    ).map_values(g));
                }
            },
        }
        i = i + 1;
    }
    proof {
        assert(lv.take(lines@.len() as int) =~= lv);
    }
    cookies
}

/// Whether the filter names this cookie.
fn filter_matches(filter: &str, name: &str) -> (r: bool)
    ensures
        r == (filter@ == name@),
{
    let n = filter.unicode_len();
    let m = name.unicode_len();
    if n != m {
        proof {
            assert(filter@ != name@);
        }
        return false;
    }
    let mut i: usize = 0;
    while i < n
        invariant
            i <= n,
            n == filter@.len(),
            n == name@.len(),
            forall|j: int| 0 <= j < i ==> filter@[j] == name@[j],
        decreases n - i,
    {
        if filter.get_char(i) != name.get_char(i) {
            proof {
                assert(filter@[i as int] != name@[i as int]);
            }
            return false;
        }
        i = i + 1;
    }
    proof {
        assert(filter@ =~= name@);
    }
    true
}

// ---------------------------------------------------------------------------
// Set-Cookie parsing.
// ---------------------------------------------------------------------------

/// The numeric value of a digit string, most significant first.
pub open spec fn digits_value(s: Seq<char>) -> int
    decreases s.len(),
{
    if s.len() == 0 {
        0
    } else {
        digits_value(s.drop_last()) * 10 + crate::time::digit_val(s[s.len() - 1])
    }
}

/// The sign and digit part of a decimal integer literal.
pub open spec fn i32_shape(s: Seq<char>) -> Option<(bool, Seq<char>)> {
    if s.len() == 0 {
        None
    } else if s[0] == '+' || s[0] == '-' {
        if s.len() == 1 {
            None
        } else {
            Some((s[0] == '-', s.skip(1)))
        }
    } else {
        Some((false, s))
    }
}

/// What parsing `s` as an i32 yields: an optional sign, one or more
/// decimal digits, and a value within the i32 range.
pub open spec fn spec_parse_i32(s: Seq<char>) -> Option<i32> {
    match i32_shape(s) {
        None => None,
        Some((neg, ds)) => {
            if !(forall|i: int|
                0 <= i < ds.len() ==> crate::time::is_dec_digit(#[trigger] ds[i])) {
                None
            } else {
                let v = if neg {
                    -digits_value(ds)
                } else {
                    digits_value(ds)
                };
                if i32::MIN <= v <= i32::MAX {
                    Some(v as i32)
                } else {
                    None
                }
            }
        },
    }
}

proof fn lemma_digits_value_nonneg(s: Seq<char>)
    requires
        forall|i: int| 0 <= i < s.len() ==> crate::time::is_dec_digit(#[trigger] s[i]),
    ensures
        digits_value(s) >= 0,
    decreases s.len(),
{
    if s.len() > 0 {
        lemma_digits_value_nonneg(s.drop_last());
    }
}

proof fn lemma_digits_value_prefix(s: Seq<char>, k: int)
    requires
        forall|i: int| 0 <= i < s.len() ==> crate::time::is_dec_digit(#[trigger] s[i]),
        0 <= k <= s.len(),
    ensures
        digits_value(s) >= digits_value(s.take(k)),
    decreases s.len() - k,
{
    if k < s.len() {
        lemma_digits_value_prefix(s, k + 1);
        assert(s.take(k + 1).drop_last() =~= s.take(k));
        lemma_digits_value_nonneg(s.take(k));
        assert(digits_value(s.take(k + 1)) == digits_value(s.take(k)) * 10
            + crate::time::digit_val(s[k]));
    } else {
        assert(s.take(k) =~= s);
    }
}

/// Parse a decimal i32 with an optional sign, as str::parse does: at least
/// one digit, digits only, value in range.
fn parse_i32(s: &str) -> (r: Option<i32>)
    ensures
        r == spec_parse_i32(s@),
{
    let n = s.unicode_len();
    if n == 0 {
        return None;
    }
    let first = s.get_char(0);
    let (neg, start) = if first == '-' {
        (true, 1usize)
    } else if first == '+' {
        (false, 1usize)
    } else {
        (false, 0usize)
    };
    if start == n {
        return None;
    }
    let ghost ds = if s@[0] == '+' || s@[0] == '-' {
        s@.skip(1)
    } else {
        s@
    };
    // accumulate the negated magnitude so that i32::MIN parses too
    let mut acc: i32 = 0;
    let mut i: usize = start;
    proof {
        assert(ds.take(0) =~= Seq::<char>::empty());
    }
    while i < n
        invariant
            start <= i <= n,
            n == s@.len(),
            start == (if s@[0] == '+' || s@[0] == '-' {
                1int
            } else {
                0int
            }),
            ds == (if s@[0] == '+' || s@[0] == '-' {
                s@.skip(1)
            } else {
                s@
            }),
            acc <= 0,
            forall|j: int| 0 <= j < i - start ==> crate::time::is_dec_digit(#[trigger] ds[j]),
            acc as int == -digits_value(ds.take(i - start)),
        decreases n - i,
    {
        let d = match crate::time::digit_at(s, i) {
            Some(d) => d,
            None => {
                proof {
                    assert(!crate::time::is_dec_digit(ds[i - start]));
                }
                return None;
            },
        };
        let ghost k = i - start;
        proof {
            assert(ds.take(k + 1).drop_last() =~= ds.take(k));
        }
        let next = match acc.checked_mul(10) {
            Some(v) => v,
            None => {
                proof {
                    lemma_overflow_means_out_of_range(s@, ds, k + 1, neg);
                }
                return None;
            },
        };
        let next = match next.checked_sub(d as i32) {
            Some(v) => v,
            None => {
                proof {
                    lemma_overflow_means_out_of_range(s@, ds, k + 1, neg);
                }
                return None;
            },
        };
        acc = next;
        i = i + 1;
    }
    proof {
        assert(ds.take(n - start) =~= ds);
    }
    if neg {
        Some(acc)
    } else {
        if acc == i32::MIN {
            return None;
        }
        Some(-acc)
    }
}

/// If the accumulated magnitude already exceeds the i32 range, the full
/// literal is out of range, whatever digits follow.
proof fn lemma_overflow_means_out_of_range(s: Seq<char>, ds: Seq<char>, k: int, neg: bool)
    requires
        ds == (if s.len() > 0 && (s[0] == '+' || s[0] == '-') {
            s.skip(1)
        } else {
            s
        }),
        s.len() > 0,
        0 <= k <= ds.len(),
        forall|j: int| 0 <= j < k ==> crate::time::is_dec_digit(#[trigger] ds[j]),
        digits_value(ds.take(k)) > 0x8000_0000,
    ensures
        spec_parse_i32(s) is None,
{
    if (forall|i: int| 0 <= i < ds.len() ==> crate::time::is_dec_digit(#[trigger] ds[i])) {
        lemma_digits_value_prefix(ds, k);
        assert(digits_value(ds) > 0x8000_0000);
    }
}

/// The parts of `s` split at every semicolon (empty parts included).
pub open spec fn split_semi(s: Seq<char>) -> Seq<Seq<char>>
    decreases s.len(),
{
    match find_char(s, ';') {
        None => seq![s],
        Some(k) => if 0 <= k < s.len() {
            seq![s.take(k)] + split_semi(s.skip(k + 1))
        } else {
            seq![s]
        },
    }
}

/// Split the string at every semicolon.
fn split_semi_str(s: &str) -> (r: Vec<String>)
    ensures
        r@.map_values(|u: String| u@) == split_semi(s@),
        r@.len() >= 1,
{
    let mut parts: Vec<String> = Vec::new();
    let mut rest = s.to_owned();
    let ghost whole = s@;
    proof {
        assert(parts@.map_values(|u: String| u@) =~= Seq::<Seq<char>>::empty());
    }
    loop
        invariant
            whole == s@,
            split_semi(whole) == parts@.map_values(|u: String| u@) + split_semi(rest@),
        decreases rest@.len(),
    {
        match find_char_str(rest.as_str(), ';') {
            Some(k) => {
                let rn = rest.as_str().unicode_len();
                let head = rest.as_str().substring_char(0, k).to_owned();
                let tail = rest.as_str().substring_char(k + 1, rn).to_owned();
                proof {
                    let kk = find_char(rest@, ';').unwrap();
                    assert(rest@.subrange(0, kk) =~= rest@.take(kk));
                    assert(rest@.subrange(kk + 1, rn as int) =~= rest@.skip(kk + 1));
                    assert(split_semi(rest@) == seq![rest@.take(kk)] + split_semi(
                        rest@.skip(kk + 1),
                    ));
                }
                let ghost parts_pre = parts@;
                parts.push(head);
                proof {
                    assert(parts@.map_values(|u: String| u@) =~= parts_pre.map_values(
                        |u: String| u@,
                    ).push(rest@.take(find_char(rest@, ';').unwrap())));
                    assert(split_semi(whole) =~= parts@.map_values(|u: String| u@) + split_semi(
                        tail@,
                    ));
                }
                rest = tail;
            },
            None => {
                proof {
                    assert(split_semi(rest@) == seq![rest@]);
                }
                let ghost parts_pre = parts@;
                let ghost restv = rest@;
                parts.push(rest);
                proof {
                    assert(parts@.map_values(|u: String| u@) =~= parts_pre.map_values(
                        |u: String| u@,
                    ).push(restv));
                    assert(parts_pre.map_values(|u: String| u@).push(restv) =~= parts_pre.map_values(
                        |u: String| u@,
                    ) + seq![restv]);
                    assert(parts@.map_values(|u: String| u@) =~= split_semi(whole));
                }
                return parts;
            },
        }
    }
}

/// The zero time: midnight, January 1 of year 1.
pub open spec fn time_zero() -> Time {
    Time { year: 1, month: 1, day: 1, hour: 0, minute: 0, second: 0, weekday: 1 }
}

/// Apply the attribute parts of a Set-Cookie line to a cookie, from part
/// `i` on. Part 0 is the name=value pair itself and is re-examined as an
/// attribute. An unparsable Max-Age or Expires value stops the walk; a
/// Domain, Expires or unknown attribute also lands in `unparsed` (those
/// arms fall through to the push).
pub open spec fn spec_apply_attrs(c: CookieModel, parts: Seq<Seq<char>>, i: int) -> CookieModel
    decreases parts.len() - i,
{
    if i < 0 || i >= parts.len() {
        c
    } else {
        let p = trim_spec(parts[i]);
        if p.len() == 0 {
            spec_apply_attrs(c, parts, i + 1)
        } else {
            let attr = match find_char(p, '=') {
                Some(j) => p.take(j),
                None => p,
            };
            let val0 = match find_char(p, '=') {
                Some(j) => p.skip(j + 1),
                None => Seq::<char>::empty(),
            };
            let ok = all_valid_value_bytes(val0);
            let val = if ok {
                val0
            } else {
                Seq::<char>::empty()
            };
            let c1 = if !ok {
                CookieModel { unparsed: c.unparsed.push(p), ..c }
            } else {
                c
            };
            if spec_eq_lower(attr, "samesite"@) {
                spec_apply_attrs(CookieModel { same_site: 1, ..c1 }, parts, i + 1)
            } else if spec_eq_lower(attr, "secure"@) {
                spec_apply_attrs(CookieModel { secure: true, ..c1 }, parts, i + 1)
            } else if spec_eq_lower(attr, "httponly"@) {
                spec_apply_attrs(CookieModel { http_only: true, ..c1 }, parts, i + 1)
            } else if spec_eq_lower(attr, "domain"@) {
                let c2 = CookieModel { domain: val, ..c1 };
                spec_apply_attrs(
                    CookieModel { unparsed: c2.unparsed.push(p), ..c2 },
                    parts,
                    i + 1,
                )
            } else if spec_eq_lower(attr, "max-age"@) {
                match spec_parse_i32(val) {
                    None => c1,
                    Some(secs) => {
                        if secs != 0 && val.len() > 0 && val[0] == '0' {
                            c1
                        } else {
                            spec_apply_attrs(
                                CookieModel {
                                    max_age: if secs <= 0 {
                                        -1i32
                                    } else {
                                        secs
                                    },
                                    ..c1
                                },
                                parts,
                                i + 1,
                            )
                        }
                    },
                }
            } else if spec_eq_lower(attr, "expires"@) {
                let c2 = CookieModel { raw_expires: val, ..c1 };
                if !rfc1123_ok(val) {
                    CookieModel { expires: time_zero(), ..c2 }
                } else {
                    let c3 = CookieModel { expires: rfc1123_time(val), ..c2 };
                    spec_apply_attrs(
                        CookieModel { unparsed: c3.unparsed.push(p), ..c3 },
                        parts,
                        i + 1,
                    )
                }
            } else if spec_eq_lower(attr, "path"@) {
                spec_apply_attrs(CookieModel { path: val, ..c1 }, parts, i + 1)
            } else {
                spec_apply_attrs(CookieModel { unparsed: c1.unparsed.push(p), ..c1 }, parts, i + 1)
            }
        }
    }
}

/// One cookie parsed from one Set-Cookie header line, if the line carries
/// a valid name=value pair.
pub open spec fn spec_set_cookie_of_line(line: Seq<char>) -> Option<CookieModel> {
    let s = trim_spec(line);
    let parts = split_semi(s);
    if parts.len() == 1 && parts[0].len() == 0 {
        None
    } else {
        let p0 = trim_spec(parts[0]);
        match find_char(p0, '=') {
            None => None,
            Some(j) => {
                let name = p0.take(j);
                let v0 = p0.skip(j + 1);
                if !spec_cookie_name_valid(name) {
                    None
                } else {
                    let stripped = cookie_value_stripped(v0, true);
                    if !all_valid_value_bytes(stripped) {
                        None
                    } else {
                        let base = CookieModel {
                            name: name,
                            value: stripped,
                            path: Seq::empty(),
                            domain: Seq::empty(),
                            expires: time_zero(),
                            raw_expires: Seq::empty(),
                            max_age: 0,
                            secure: false,
                            http_only: false,
                            same_site: 0,
                            raw: line,
                            unparsed: Seq::empty(),
                        };
                        Some(spec_apply_attrs(base, parts.update(0, p0), 0))
                    }
                }
            },
        }
    }
}

/// Parse one Set-Cookie header line.
#[verifier::rlimit(100)]
fn set_cookie_of_line(line: &str) -> (r: Option<Cookie>)
    ensures
        match (r, spec_set_cookie_of_line(line@)) {
            (Some(c), Some(m)) => c@ == m,
            (None, None) => true,
            _ => false,
        },
{
    let s = trim_string(line);
    let parts = split_semi_str(s.as_str());
    let ghost pv = parts@.map_values(|u: String| u@);
    if parts.len() == 1 && parts[0].as_str().is_empty() {
        return None;
    }
    let p0 = trim_string(parts[0].as_str());
    let pn0 = p0.as_str().unicode_len();
    let j = match find_char_str(p0.as_str(), '=') {
        Some(j) => j,
        None => {
            return None;
        },
    };
    proof {
        let jj = find_char(p0@, '=').unwrap();
        assert(p0@.subrange(0, jj) =~= p0@.take(jj));
        assert(p0@.subrange(jj + 1, pn0 as int) =~= p0@.skip(jj + 1));
    }
    let name = p0.as_str().substring_char(0, j).to_owned();
    let v0 = p0.as_str().substring_char(j + 1, pn0).to_owned();
    if !is_cookie_name_valid(name.as_str()) {
        return None;
    }
    let (value, ok) = parse_cookie_value(v0.as_str(), true);
    if !ok {
        return None;
    }
    let mut c = Cookie {
        name,
        value: value.to_owned(),
        path: String::new(),
        domain: String::new(),
        expires: Time::default(),
        raw_expires: String::new(),
        max_age: 0,
        secure: false,
        http_only: false,
        same_site: 0,
        raw: line.to_owned(),
        unparsed: Vec::new(),
    };
    let ghost parts1 = pv.update(0, p0@);
    let ghost base = c@;
    proof {
        assert(c@.unparsed =~= Seq::<Seq<char>>::empty());
        let m = spec_set_cookie_of_line(line@);
        assert(m == Some(spec_apply_attrs(base, parts1, 0))) by {
            assert(base =~~= CookieModel {
                name: p0@.take(j as int),
                value: cookie_value_stripped(p0@.skip(j + 1), true),
                path: Seq::empty(),
                domain: Seq::empty(),
                expires: time_zero(),
                raw_expires: Seq::empty(),
                max_age: 0,
                secure: false,
                http_only: false,
                same_site: 0,
                raw: line@,
                unparsed: Seq::empty(),
            });
        }
    }
    let n = parts.len();
    let mut idx: usize = 0;
    loop
        invariant_except_break
            spec_apply_attrs(base, parts1, 0) == spec_apply_attrs(c@, parts1, idx as int),
        invariant
            idx <= n,
            n == parts@.len(),
            n >= 1,
            pv == parts@.map_values(|u: String| u@),
            parts1 == pv.update(0, p0@),
            parts1.len() == n,
        ensures
            spec_apply_attrs(base, parts1, 0) == c@,
        decreases n - idx,
    {
        if idx >= n {
            break;
        }
        let p = if idx == 0 {
            trim_string(p0.as_str())
        } else {
            trim_string(parts[idx].as_str())
        };
        proof {
            assert(p@ == trim_spec(parts1[idx as int]));
        }
        if p.as_str().is_empty() {
            idx = idx + 1;
            continue;
        }
        let pn = p.as_str().unicode_len();
        let (attr, val0) = match find_char_str(p.as_str(), '=') {
            Some(jj) => {
                proof {
                    let j2 = find_char(p@, '=').unwrap();
                    assert(p@.subrange(0, j2) =~= p@.take(j2));
                    assert(p@.subrange(j2 + 1, pn as int) =~= p@.skip(j2 + 1));
                }
                let a = p.as_str().substring_char(0, jj).to_owned();
                let v = p.as_str().substring_char(jj + 1, pn).to_owned();
                (a, v)
            },
            None => {
                proof {
                    reveal_strlit("");
                    assert(""@ =~= Seq::<char>::empty());
                }
                (p.clone(), "".to_owned())
            },
        };
        let (val_s, ok2) = parse_cookie_value(val0.as_str(), false);
        let val = val_s.to_owned();
        let ghost c_at_entry = c@;
        if !ok2 {
            c.unparsed.push(p.clone());
        }
        proof {
            if !ok2 {
                assert(c@ =~~= (CookieModel {
                    unparsed: c_at_entry.unparsed.push(p@),
                    ..c_at_entry
                }));
            }
        }
        let ghost c1 = c@;
        if eq_ascii_lower(attr.as_str(), "samesite") {
            c.same_site = SameSiteDefaultMode;
            proof {
                assert(c@ =~~= (CookieModel { same_site: 1, ..c1 }));
            }
        } else if eq_ascii_lower(attr.as_str(), "secure") {
            c.secure = true;
            proof {
                assert(c@ =~~= (CookieModel { secure: true, ..c1 }));
            }
        } else if eq_ascii_lower(attr.as_str(), "httponly") {
            c.http_only = true;
            proof {
                assert(c@ =~~= (CookieModel { http_only: true, ..c1 }));
            }
        } else if eq_ascii_lower(attr.as_str(), "domain") {
            c.domain = val;
            c.unparsed.push(p.clone());
            proof {
                assert(c@ =~~= (CookieModel {
                    unparsed: c1.unparsed.push(p@),
                    domain: (CookieModel { domain: c@.domain, ..c1 }).domain,
                    ..c1
                }));
            }
        } else if eq_ascii_lower(attr.as_str(), "max-age") {
            let secs = match parse_i32(val.as_str()) {
                None => {
                    proof {
                        assert(spec_apply_attrs(base, parts1, 0) == c@);
                    }
                    break;
                },
                Some(secs) => secs,
            };
            if secs != 0 && val.as_str().unicode_len() > 0 && val.as_str().get_char(0) == '0' {
                proof {
                    assert(spec_apply_attrs(base, parts1, 0) == c@);
                }
                break;
            }
            c.max_age = if secs <= 0 {
                -1
            } else {
                secs
            };
            proof {
                assert(c@ =~~= (CookieModel { max_age: c@.max_age, ..c1 }));
            }
        } else if eq_ascii_lower(attr.as_str(), "expires") {
            c.raw_expires = val.clone();
            let ghost c2 = c@;
            proof {
                assert(c2 =~~= (CookieModel { raw_expires: val@, ..c1 }));
            }
            match Time::parse_rfc1123(val.as_str()) {
                None => {
                    c.expires = Time::default();
                    proof {
                        assert(c@ =~~= (CookieModel { expires: time_zero(), ..c2 }));
                        assert(spec_apply_attrs(base, parts1, 0) == c@);
                    }
                    break;
                },
                Some(t) => {
                    c.expires = t.utc();
                    c.unparsed.push(p.clone());
                    proof {
                        assert(c@ =~~= (CookieModel {
                            unparsed: c2.unparsed.push(p@),
                            expires: rfc1123_time(val@),
                            ..c2
                        }));
                    }
                },
            }
        } else if eq_ascii_lower(attr.as_str(), "path") {
            c.path = val;
            proof {
                assert(c@ =~~= (CookieModel { path: c@.path, ..c1 }));
            }
        } else {
            c.unparsed.push(p.clone());
            proof {
                assert(c@ =~~= (CookieModel { unparsed: c1.unparsed.push(p@), ..c1 }));
            }
        }
        proof {
            assert(spec_apply_attrs(c_at_entry, parts1, idx as int) == spec_apply_attrs(
                c@,
                parts1,
                idx + 1,
            ));
        }
        idx = idx + 1;
    }
    Some(c)
}

/// The cookies of a sequence of Set-Cookie header lines, in order.
pub open spec fn spec_read_set_cookies(lines: Seq<Seq<char>>) -> Seq<CookieModel>
    decreases lines.len(),
{
    if lines.len() == 0 {
        Seq::empty()
    } else {
        let rest = spec_read_set_cookies(lines.skip(1));
        match spec_set_cookie_of_line(lines[0]) {
            Some(m) => seq![m] + rest,
            None => rest,
        }
    }
}

proof fn lemma_read_set_cookies_push(lines: Seq<Seq<char>>, line: Seq<char>)
    ensures
        spec_read_set_cookies(lines.push(line)) == spec_read_set_cookies(lines) + (
        match spec_set_cookie_of_line(line) {
            Some(m) => seq![m],
            None => Seq::<CookieModel>::empty(),
        }),
    decreases lines.len(),
{
    let tailpart = (match spec_set_cookie_of_line(line) {
        Some(m) => seq![m],
        None => Seq::<CookieModel>::empty(),
    });
    if lines.len() == 0 {
        assert(lines.push(line)[0] == line);
        assert(lines.push(line).skip(1) =~= Seq::<Seq<char>>::empty());
        assert(spec_read_set_cookies(Seq::<Seq<char>>::empty()) == Seq::<CookieModel>::empty());
        assert(spec_read_set_cookies(lines.push(line)) =~~= spec_read_set_cookies(lines)
            + tailpart);
    } else {
        assert(lines.push(line).skip(1) =~= lines.skip(1).push(line));
        lemma_read_set_cookies_push(lines.skip(1), line);
        assert(lines.push(line)[0] == lines[0]);
        assert(spec_read_set_cookies(lines.push(line)) =~~= spec_read_set_cookies(lines)
            + tailpart);
    }
}

/// Parse all Set-Cookie header values of `h` into the cookies they carry,
/// in header order; lines without a valid name=value pair are dropped.
pub fn read_set_cookies(h: http::HeaderMap) -> (r: Vec<Cookie>)
    ensures
        r@.map_values(|c: Cookie| c@) == spec_read_set_cookies(
            spec_header_values(h, "Set-Cookie"@),
        ),
{
    let lines = header_values(&h, "Set-Cookie");
    let ghost lv = lines@.map_values(|u: String| u@);
    let mut cookies: Vec<Cookie> = Vec::new();
    let mut i: usize = 0;
    proof {
        assert(lv.take(0) =~= Seq::<Seq<char>>::empty());
        assert(cookies@.map_values(|c: Cookie| c@) =~~= spec_read_set_cookies(lv.take(0)));
    }
    while i < lines.len()
        invariant
            i <= lines.len(),
            lv == lines@.map_values(|u: String| u@),
            cookies@.map_values(|c: Cookie| c@) == spec_read_set_cookies(lv.take(i as int)),
        decreases lines.len() - i,
    {
        let ghost line_v = lv[i as int];
        let ghost cookies_pre = cookies@;
        let parsed = set_cookie_of_line(lines[i].as_str());
        proof {
            lemma_read_set_cookies_push(lv.take(i as int), line_v);
            assert(lv.take(i as int).push(line_v) =~= lv.take(i + 1));
        }
        match parsed {
            Some(c) => {
                let ghost cm = c@;
                cookies.push(c);
                proof {
                    let f = |c: Cookie| c@;
                    assert(cookies@.map_values(f) =~~= cookies_pre.map_values(f).push(cm));
                    assert(spec_read_set_cookies(lv.take(i + 1)) =~~= spec_read_set_cookies(
                        lv.take(i as int),
                    ).push(cm));
                    assert(cookies@.map_values(f) =~~= spec_read_set_cookies(lv.take(i + 1)));
                }
            },
            None => {
                proof {
                    let f = |c: Cookie| c@;
                    assert(spec_read_set_cookies(lv.take(i + 1)) =~~= spec_read_set_cookies(
                        lv.take(i as int),
                    ));
                    assert(cookies@.map_values(f) =~~= spec_read_set_cookies(lv.take(i + 1)));
                }
            },
        }
        i = i + 1;
    }
    proof {
        assert(lv.take(lines@.len() as int) =~= lv);
    }
    cookies
}

} // verus!
