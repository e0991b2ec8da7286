use vstd::prelude::*;
use vstd::string::*;

use crate::store::{storable, same_key, has_key, key_unique, CookieModel, Cookie, Jar};
use crate::store::lemma_filter_identity;
use crate::strutil::{spec_find, lemma_find_exact, lemma_find_shift, lemma_spec_find};
use crate::strutil::{find_char, has_lit_at, copy_range};
use crate::Error;

verus! {

// ---------------------------------------------------------------------------
// Decimal numerals
// ---------------------------------------------------------------------------

/// The decimal digit for `d` (last decimal place of a number).
pub open spec fn digit_char(d: nat) -> char {
    if d == 0 {
        '0'
    } else if d == 1 {
        '1'
    } else if d == 2 {
        '2'
    } else if d == 3 {
        '3'
    } else if d == 4 {
        '4'
    } else if d == 5 {
        '5'
    } else if d == 6 {
        '6'
    } else if d == 7 {
        '7'
    } else if d == 8 {
        '8'
    } else {
        '9'
    }
}

/// Value of a decimal digit, `-1` for any other character.
pub open spec fn digit_val(c: char) -> int {
    if c == '0' {
        0
    } else if c == '1' {
        1
    } else if c == '2' {
        2
    } else if c == '3' {
        3
    } else if c == '4' {
        4
    } else if c == '5' {
        5
    } else if c == '6' {
        6
    } else if c == '7' {
        7
    } else if c == '8' {
        8
    } else if c == '9' {
        9
    } else {
        -1
    }
}

pub open spec fn is_digit(c: char) -> bool {
    digit_val(c) >= 0
}

/// Canonical decimal numeral of `n`, most significant digit first.
pub open spec fn dec_digits(n: nat) -> Seq<char>
    decreases n,
{
    if n < 10 {
        seq![digit_char(n)]
    } else {
        dec_digits(n / 10).push(digit_char(n % 10))
    }
}

/// Value of a digit string, read most significant digit first.
pub open spec fn digits_val(s: Seq<char>) -> int
    decreases s.len(),
{
    if s.len() == 0 {
        0
    } else {
        digits_val(s.drop_last()) * 10 + digit_val(s.last())
    }
}

pub open spec fn all_digits(s: Seq<char>) -> bool {
    forall|i: int| 0 <= i < s.len() ==> is_digit(#[trigger] s[i])
}

/// The numeral a `u64` expiry is accepted from: non-empty digits, no
/// leading zero, value within `u64`.
pub open spec fn sp_number(s: Seq<char>) -> Option<u64> {
    if s.len() >= 1 && all_digits(s) && (s.len() == 1 || s[0] != '0') && digits_val(s)
        <= u64::MAX {
        Some(digits_val(s) as u64)
    } else {
        None
    }
}

/// The canonical numeral consists of digits, has the value it encodes,
/// and never starts with a spurious zero.
pub proof fn lemma_dec_digits(n: nat)
    ensures
        dec_digits(n).len() >= 1,
        all_digits(dec_digits(n)),
        digits_val(dec_digits(n)) == n,
        n >= 1 ==> dec_digits(n)[0] != '0',
        n >= 10 ==> dec_digits(n)[0] == dec_digits(n / 10)[0],
    decreases n,
{
    if n < 10 {
        assert(dec_digits(n) == seq![digit_char(n)]);
        assert(dec_digits(n).drop_last() =~= Seq::<char>::empty());
        assert(digit_val(digit_char(n)) == n);
        assert(digits_val(dec_digits(n)) == digits_val(Seq::<char>::empty()) * 10 + digit_val(
            digit_char(n),
        ));
    } else {
        lemma_dec_digits(n / 10);
        let w = dec_digits(n / 10).push(digit_char(n % 10));
        assert(w.drop_last() =~= dec_digits(n / 10));
        assert(forall|i: int| 0 <= i < w.len() ==> is_digit(#[trigger] w[i]));
        assert(digit_val(digit_char(n % 10)) == n % 10);
        vstd::arithmetic::div_mod::lemma_fundamental_div_mod(n as int, 10);
        assert(digits_val(w) == (n / 10) * 10 + (n % 10));
    }
}

/// The canonical numeral of a `u64` is exactly what `sp_number` accepts.
pub proof fn lemma_number_round_trip(n: u64)
    ensures
        sp_number(dec_digits(n as nat)) == Some(n),
{
    lemma_dec_digits(n as nat);
}

/// Digit strings have non-negative value.
pub proof fn lemma_digits_val_nonneg(s: Seq<char>)
    requires
        all_digits(s),
    ensures
        digits_val(s) >= 0,
    decreases s.len(),
{
    if s.len() > 0 {
        assert(forall|i: int|
            0 <= i < s.drop_last().len() ==> is_digit(#[trigger] s.drop_last()[i]));
        lemma_digits_val_nonneg(s.drop_last());
    }
}

/// Extending a digit string can only grow its value.
pub proof fn lemma_digits_val_extend(s: Seq<char>, k: int)
    requires
        all_digits(s),
        0 <= k <= s.len(),
    ensures
        digits_val(s) >= digits_val(s.subrange(0, k)),
    decreases s.len() - k,
{
    if k < s.len() {
        let t = s.subrange(0, k + 1);
        assert(t.drop_last() =~= s.subrange(0, k));
        assert(forall|i: int| 0 <= i < t.len() ==> is_digit(#[trigger] t[i]));
        lemma_digits_val_nonneg(s.subrange(0, k));
        assert(digits_val(t) == digits_val(s.subrange(0, k)) * 10 + digit_val(s[k]));
        lemma_digits_val_extend(s, k + 1);
    } else {
        assert(s.subrange(0, k) =~= s);
    }
}

/// The one-character string for a decimal digit.
pub fn digit_literal(d: u64) -> (r: &'static str)
    requires
        d < 10,
    ensures
        r@ =~= seq![digit_char(d as nat)],
{
    let r: &'static str = if d == 0 {
        "0"
    } else if d == 1 {
        "1"
    } else if d == 2 {
        "2"
    } else if d == 3 {
        "3"
    } else if d == 4 {
        "4"
    } else if d == 5 {
        "5"
    } else if d == 6 {
        "6"
    } else if d == 7 {
        "7"
    } else if d == 8 {
        "8"
    } else {
        "9"
    };
    proof {
        reveal_strlit("0");
        reveal_strlit("1");
        reveal_strlit("2");
        reveal_strlit("3");
        reveal_strlit("4");
        reveal_strlit("5");
        reveal_strlit("6");
        reveal_strlit("7");
        reveal_strlit("8");
        reveal_strlit("9");
    }
    r
}

/// Digit value of a character, if it is a decimal digit.
pub fn digit_of(c: char) -> (r: Option<u64>)
    ensures
        match r {
            Some(v) => digit_val(c) == v,
            None => digit_val(c) == -1,
        },
{
    match c {
        '0' => Some(0),
        '1' => Some(1),
        '2' => Some(2),
        '3' => Some(3),
        '4' => Some(4),
        '5' => Some(5),
        '6' => Some(6),
        '7' => Some(7),
        '8' => Some(8),
        '9' => Some(9),
        _ => None,
    }
}

/// The canonical decimal numeral of `n`.
pub fn encode_u64(n: u64) -> (r: String)
    ensures
        r@ == dec_digits(n as nat),
    decreases n,
{
    if n < 10 {
        digit_literal(n).to_owned()
    } else {
        let mut s = encode_u64(n / 10);
        s.append(digit_literal(n % 10));
        proof {
            assert(s@ =~= dec_digits(n as nat));
        }
        s
    }
}

/// Reads `s[from..to]` as a decimal numeral, exactly as `sp_number` does.
pub fn parse_number(s: &str, from: usize, to: usize) -> (r: Option<u64>)
    requires
        from <= to <= s@.len(),
    ensures
        r == sp_number(s@.subrange(from as int, to as int)),
{
    let ghost region = s@.subrange(from as int, to as int);
    if from == to {
        return None;
    }
    let first = s.get_char(from);
    if to - from > 1 && first == '0' {
        assert(region[0] == '0');
        return None;
    }
    let mut acc: u128 = 0;
    let mut i = from;
    while i < to
        invariant
            from <= i <= to,
            to <= s@.len(),
            region == s@.subrange(from as int, to as int),
            all_digits(region.subrange(0, i - from)),
            acc == digits_val(region.subrange(0, i - from)),
            acc <= u64::MAX,
        decreases to - i,
    {
        let c = s.get_char(i);
        assert(region[i - from] == c);
        match digit_of(c) {
            None => {
                assert(!is_digit(region[i - from]));
                return None;
            },
            Some(d) => {
                proof {
                    let t = region.subrange(0, i - from + 1);
                    assert(t.drop_last() =~= region.subrange(0, i - from));
                    assert(t.last() == c);
                    assert(forall|k: int| 0 <= k < t.len() ==> is_digit(#[trigger] t[k]));
                }
                acc = acc * 10 + (d as u128);
                i += 1;
                if acc > u64::MAX as u128 {
                    proof {
                        if all_digits(region) {
                            lemma_digits_val_extend(region, i - from);
                            assert(digits_val(region) > u64::MAX);
                        }
                    }
                    return None;
                }
            },
        }
    }
    proof {
        assert(region.subrange(0, to - from) =~= region);
        assert(region.len() >= 1);
        assert(region[0] != '0' || region.len() == 1);
    }
    Some(acc as u64)
}

// ---------------------------------------------------------------------------
// The jar snapshot format: one object per line, fields in a fixed order
// ---------------------------------------------------------------------------

/// The expiry text: `null`, or a decimal instant.
pub open spec fn enc_expiry(e: Option<u64>) -> Seq<char> {
    match e {
        None => "null"@,
        Some(t) => dec_digits(t as nat),
    }
}

/// One snapshot line (newline not included).
pub open spec fn enc_line(c: CookieModel) -> Seq<char> {
    "{\"domain\":\""@ + c.domain + "\",\"path\":\""@ + c.path + "\",\"name\":\""@ + c.name
        + "\",\"value\":\""@ + c.value + "\",\"expiry\":"@ + enc_expiry(c.expiry) + "}"@
}

/// One cookie in the snapshot: its line and the newline ending it.
pub open spec fn enc_cookie(c: CookieModel) -> Seq<char> {
    enc_line(c) + "\n"@
}

/// The whole snapshot: the cookies' lines in jar order.
pub open spec fn enc_jar(s: Seq<CookieModel>) -> Seq<char>
    decreases s.len(),
{
    if s.len() == 0 {
        Seq::empty()
    } else {
        enc_cookie(s[0]) + enc_jar(s.drop_first())
    }
}

/// Appending one cookie appends its snapshot text.
pub proof fn lemma_enc_jar_snoc(s: Seq<CookieModel>, c: CookieModel)
    ensures
        enc_jar(s.push(c)) == enc_jar(s) + enc_cookie(c),
    decreases s.len(),
{
    if s.len() == 0 {
        assert(s.push(c).drop_first() =~= Seq::<CookieModel>::empty());
        assert(s.push(c)[0] == c);
        assert(enc_jar(s.push(c)) == enc_cookie(c) + enc_jar(Seq::<CookieModel>::empty()));
        assert(enc_jar(Seq::<CookieModel>::empty()) =~= Seq::<char>::empty());
        assert(enc_jar(s) =~= Seq::<char>::empty());
        assert(enc_jar(s.push(c)) =~= enc_jar(s) + enc_cookie(c));
    } else {
        assert(s.push(c).drop_first() =~= s.drop_first().push(c));
        lemma_enc_jar_snoc(s.drop_first(), c);
        assert(s.push(c)[0] == s[0]);
        assert(enc_jar(s.push(c)) == enc_cookie(s[0]) + enc_jar(s.drop_first().push(c)));
        assert(enc_jar(s) == enc_cookie(s[0]) + enc_jar(s.drop_first()));
        assert(enc_jar(s.push(c)) =~= enc_jar(s) + enc_cookie(c));
    }
}

/// The expiry text of `e`.
pub fn encode_expiry(e: &Option<u64>) -> (r: String)
    ensures
        r@ == enc_expiry(*e),
{
    match e {
        None => "null".to_owned(),
        Some(t) => encode_u64(*t),
    }
}

/// The snapshot line of `c`, with its trailing newline.
pub fn encode_cookie(c: &Cookie) -> (r: String)
    ensures
        r@ == enc_cookie(c@),
{
    let mut out = String::from_str("{\"domain\":\"");
    out.append(c.domain.as_str());
    out.append("\",\"path\":\"");
    out.append(c.path.as_str());
    out.append("\",\"name\":\"");
    out.append(c.name.as_str());
    out.append("\",\"value\":\"");
    out.append(c.value.as_str());
    out.append("\",\"expiry\":");
    let exp = encode_expiry(&c.expiry);
    out.append(exp.as_str());
    out.append("}");
    out.append("\n");
    proof {
        assert(out@ =~= enc_cookie(c@));
    }
    out
}

// ---------------------------------------------------------------------------
// Parsing the snapshot
// ---------------------------------------------------------------------------

/// What one line of the snapshot means, if anything: the format is fixed,
/// so parsing walks from field to field by the closing quotes.
pub open spec fn sp_line(s: Seq<char>) -> Option<CookieModel> {
    let ld = "{\"domain\":\""@;
    let lp = "\",\"path\":\""@;
    let ln = "\",\"name\":\""@;
    let lv = "\",\"value\":\""@;
    let le = "\",\"expiry\":"@;
    if s.len() < ld.len() || s.subrange(0, ld.len() as int) != ld {
        None
    } else {
        let q1 = spec_find(s, '"', ld.len() as int);
        if q1 < 0 || q1 + lp.len() > s.len() || s.subrange(q1, q1 + lp.len()) != lp {
            None
        } else {
            let q2 = spec_find(s, '"', q1 + lp.len());
            if q2 < 0 || q2 + ln.len() > s.len() || s.subrange(q2, q2 + ln.len()) != ln {
                None
            } else {
                let q3 = spec_find(s, '"', q2 + ln.len());
                if q3 < 0 || q3 + lv.len() > s.len() || s.subrange(q3, q3 + lv.len()) != lv {
                    None
                } else {
                    let q4 = spec_find(s, '"', q3 + lv.len());
                    if q4 < 0 || q4 + le.len() > s.len() || s.subrange(q4, q4 + le.len()) != le {
                        None
                    } else {
                        let body = CookieModel {
                            domain: s.subrange(ld.len() as int, q1),
                            path: s.subrange(q1 + lp.len(), q2),
                            name: s.subrange(q2 + ln.len(), q3),
                            value: s.subrange(q3 + lv.len(), q4),
                            expiry: None,
                        };
                        let t = s.subrange(q4 + le.len(), s.len() as int);
                        if t == "null}"@ {
                            Some(body)
                        } else if t.len() >= 1 && t.last() == '}' && sp_number(t.drop_last()) is Some {
                            Some(CookieModel { expiry: Some(sp_number(t.drop_last())->Some_0), ..body })
                        } else {
                            None
                        }
                    }
                }
            }
        }
    }
}

/// What a whole snapshot text means, if anything: one cookie per
/// newline-terminated line, in order.
pub open spec fn sp_jar(s: Seq<char>) -> Option<Seq<CookieModel>>
    decreases s.len(),
{
    if s.len() == 0 {
        Some(Seq::empty())
    } else {
        let nl = spec_find(s, '\n', 0);
        if nl < 0 || nl >= s.len() {
            None
        } else {
            match sp_line(s.subrange(0, nl)) {
                None => None,
                Some(c) => match sp_jar(s.subrange(nl + 1, s.len() as int)) {
                    None => None,
                    Some(rest) => Some(seq![c] + rest),
                },
            }
        }
    }
}

/// The snapshot line of a storable cookie parses back to that cookie,
/// and holds no newline.
#[verifier::rlimit(100)]
pub proof fn lemma_line_round_trip(c: CookieModel)
    requires
        storable(c),
    ensures
        sp_line(enc_line(c)) == Some(c),
        forall|k: int| 0 <= k < enc_line(c).len() ==> enc_line(c)[k] != '\n',
{
    let ld = "{\"domain\":\""@;
    let lp = "\",\"path\":\""@;
    let ln = "\",\"name\":\""@;
    let lv = "\",\"value\":\""@;
    let le = "\",\"expiry\":"@;
    reveal_strlit("{\"domain\":\"");
    reveal_strlit("\",\"path\":\"");
    reveal_strlit("\",\"name\":\"");
    reveal_strlit("\",\"value\":\"");
    reveal_strlit("\",\"expiry\":");
    reveal_strlit("null");
    reveal_strlit("null}");
    reveal_strlit("}");
    let s = enc_line(c);
    let e = enc_expiry(c.expiry);
    let b1 = 11 + c.domain.len();
    let a2 = b1 + 10;
    let b2 = a2 + c.path.len();
    let a3 = b2 + 10;
    let b3 = a3 + c.name.len();
    let a4 = b3 + 11;
    let b4 = a4 + c.value.len();
    let a5 = b4 + 11;
    assert(ld.len() == 11);
    assert(lp.len() == 10);
    assert(ln.len() == 10);
    assert(lv.len() == 11);
    assert(le.len() == 11);
    assert(s.len() == a5 + e.len() + 1);
    assert(s.subrange(0, 11) =~= ld);
    assert(s.subrange(11, b1 as int) =~= c.domain);
    assert(s.subrange(b1 as int, a2 as int) =~= lp);
    assert(s.subrange(a2 as int, b2 as int) =~= c.path);
    assert(s.subrange(b2 as int, a3 as int) =~= ln);
    assert(s.subrange(a3 as int, b3 as int) =~= c.name);
    assert(s.subrange(b3 as int, a4 as int) =~= lv);
    assert(s.subrange(a4 as int, b4 as int) =~= c.value);
    assert(s.subrange(b4 as int, a5 as int) =~= le);
    let t = s.subrange(a5 as int, s.len() as int);
    assert(t =~= e + "}"@);
    // the four closing quotes stand exactly where the fields end
    assert(s[b1 as int] == '"');
    assert forall|k: int| 11 <= k < b1 implies s[k] != '"' by {
        assert(s[k] == c.domain[k - 11]);
    }
    lemma_find_exact(s, '"', 11, b1 as int);
    assert(s[b2 as int] == '"');
    assert forall|k: int| a2 <= k < b2 implies s[k] != '"' by {
        assert(s[k] == c.path[k - a2]);
    }
    lemma_find_exact(s, '"', a2 as int, b2 as int);
    assert(s[b3 as int] == '"');
    assert forall|k: int| a3 <= k < b3 implies s[k] != '"' by {
        assert(s[k] == c.name[k - a3]);
    }
    lemma_find_exact(s, '"', a3 as int, b3 as int);
    assert(s[b4 as int] == '"');
    assert forall|k: int| a4 <= k < b4 implies s[k] != '"' by {
        assert(s[k] == c.value[k - a4]);
    }
    lemma_find_exact(s, '"', a4 as int, b4 as int);
    // the tail is the expiry text followed by the closing brace
    match c.expiry {
        None => {
            assert(t =~= "null}"@);
        },
        Some(exp) => {
            lemma_dec_digits(exp as nat);
            lemma_number_round_trip(exp);
            assert(t.last() == '}');
            assert(t.drop_last() =~= dec_digits(exp as nat));
            if t == "null}"@ {
                assert(t[0] == 'n');
                assert(is_digit(dec_digits(exp as nat)[0]));
                assert(false);
            }
        },
    }
    assert(sp_line(s) == Some(c));
    // no character of the line is a newline
    assert forall|k: int| 0 <= k < s.len() implies s[k] != '\n' by {
        if k < 11 {
            assert(s[k] == ld[k]);
        } else if k < b1 {
            assert(s[k] == c.domain[k - 11]);
        } else if k < a2 {
            assert(s[k] == lp[k - b1]);
        } else if k < b2 {
            assert(s[k] == c.path[k - a2]);
        } else if k < a3 {
            assert(s[k] == ln[k - b2]);
        } else if k < b3 {
            assert(s[k] == c.name[k - a3]);
        } else if k < a4 {
            assert(s[k] == lv[k - b3]);
        } else if k < b4 {
            assert(s[k] == c.value[k - a4]);
        } else if k < a5 {
            assert(s[k] == le[k - b4]);
        } else if k < a5 + e.len() {
            assert(s[k] == e[k - a5]);
            match c.expiry {
                None => {
                    assert(e == "null"@);
                },
                Some(exp) => {
                    lemma_dec_digits(exp as nat);
                    assert(is_digit(e[k - a5]));
                },
            }
        } else {
            assert(s[k] == '}');
        }
    }
}

/// One snapshot line followed by a parsing remainder parses as the cookie
/// followed by the remainder's cookies.
#[verifier::rlimit(100)]
#[verifier::spinoff_prover]
pub proof fn lemma_jar_round_trip_step(c: CookieModel, rest: Seq<char>, restm: Seq<CookieModel>)
    requires
        storable(c),
        sp_jar(rest) == Some(restm),
    ensures
        sp_jar(enc_cookie(c) + rest) == Some(seq![c] + restm),
{
    reveal_strlit("\n");
    let line = enc_line(c);
    let s = enc_cookie(c) + rest;
    let nl = line.len() as int;
    lemma_line_round_trip(c);
    assert(spec_find(s, '\n', 0) == nl) by {
        assert(s[nl] == '\n');
        assert forall|k: int| 0 <= k < nl implies s[k] != '\n' by {
            assert(s[k] == line[k]);
        }
        lemma_find_exact(s, '\n', 0, nl);
    }
    assert(sp_line(s.subrange(0, nl)) == Some(c)) by {
        assert(s.subrange(0, nl) =~= line);
    }
    assert(sp_jar(s.subrange(nl + 1, s.len() as int)) == Some(restm)) by {
        assert(s.subrange(nl + 1, s.len() as int) =~= rest);
    }
    assert(s.len() > 0);
    assert(sp_jar(s) == Some(seq![c] + restm));
}

/// A well-formed jar's snapshot parses back to exactly that jar.
pub proof fn lemma_jar_round_trip(ms: Seq<CookieModel>)
    requires
        forall|i: int| 0 <= i < ms.len() ==> storable(#[trigger] ms[i]),
    ensures
        sp_jar(enc_jar(ms)) == Some(ms),
    decreases ms.len(),
{
    if ms.len() == 0 {
        assert(sp_jar(enc_jar(ms)) == Some(Seq::<CookieModel>::empty()));
        assert(Seq::<CookieModel>::empty() =~= ms);
    } else {
        assert(forall|i: int|
            0 <= i < ms.drop_first().len() ==> storable(#[trigger] ms.drop_first()[i]));
        lemma_jar_round_trip(ms.drop_first());
        lemma_jar_round_trip_step(ms[0], enc_jar(ms.drop_first()), ms.drop_first());
        assert(enc_jar(ms) == enc_cookie(ms[0]) + enc_jar(ms.drop_first()));
        assert(seq![ms[0]] + ms.drop_first() =~= ms);
    }
}


/// The snapshot text of a whole jar.
pub fn encode_jar_text(jar: &Jar) -> (r: String)
    ensures
        r@ == enc_jar(jar@),
{
    let mut out = String::new();
    let n = jar.len();
    let mut i: usize = 0;
    proof {
        assert(jar@.subrange(0, 0) =~= Seq::<CookieModel>::empty());
    }
    while i < n
        invariant
            0 <= i <= n,
            n == jar@.len(),
            out@ == enc_jar(jar@.subrange(0, i as int)),
        decreases n - i,
    {
        let line = encode_cookie(jar.cookie_at(i));
        out.append(line.as_str());
        proof {
            assert(jar@.subrange(0, i + 1) =~= jar@.subrange(0, i as int).push(jar@[i as int]));
            lemma_enc_jar_snoc(jar@.subrange(0, i as int), jar@[i as int]);
        }
        i += 1;
    }
    proof {
        assert(jar@.subrange(0, n as int) =~= jar@);
    }
    out
}

/// Reads one snapshot line, exactly as `sp_line` does. In a line free of
/// newlines, a parsed cookie is storable.
pub fn parse_line(s: &str) -> (r: Option<Cookie>)
    ensures
        match r {
            Some(c) => sp_line(s@) == Some(c@) && ((forall|k: int|
                0 <= k < s@.len() ==> s@[k] != '\n') ==> storable(c@)),
            None => sp_line(s@) is None,
        },
{
    let n = s.unicode_len();
    proof {
        reveal_strlit("{\"domain\":\"");
        reveal_strlit("\",\"path\":\"");
        reveal_strlit("\",\"name\":\"");
        reveal_strlit("\",\"value\":\"");
        reveal_strlit("\",\"expiry\":");
    }
    if !has_lit_at(s, 0, "{\"domain\":\"") {
        return None;
    }
    let q1 = match find_char(s, '"', 11) {
        None => {
            return None;
        },
        Some(i) => i,
    };
    if !has_lit_at(s, q1, "\",\"path\":\"") {
        return None;
    }
    let q2 = match find_char(s, '"', q1 + 10) {
        None => {
            return None;
        },
        Some(i) => i,
    };
    if !has_lit_at(s, q2, "\",\"name\":\"") {
        return None;
    }
    let q3 = match find_char(s, '"', q2 + 10) {
        None => {
            return None;
        },
        Some(i) => i,
    };
    if !has_lit_at(s, q3, "\",\"value\":\"") {
        return None;
    }
    let q4 = match find_char(s, '"', q3 + 11) {
        None => {
            return None;
        },
        Some(i) => i,
    };
    if !has_lit_at(s, q4, "\",\"expiry\":") {
        return None;
    }
    let p4 = q4 + 11;
    let ghost t = s@.subrange(p4 as int, s@.len() as int);
    proof {
        reveal_strlit("null}");
    }
    let expiry: Option<u64> = if has_lit_at(s, p4, "null}") && p4 + 5 == n {
        proof {
            assert(t =~= "null}"@);
        }
        None
    } else {
        proof {
            if t == "null}"@ {
                assert(t.len() == 5);
                assert(s@.subrange(p4 as int, p4 as int + 5) =~= t);
                assert(false);
            }
        }
        if n - p4 < 2 || s.get_char(n - 1) != '}' {
            proof {
                if t.len() >= 1 && t.last() == '}' && sp_number(t.drop_last()) is Some {
                    assert(t.last() == s@[n - 1]);
                    assert(t.drop_last() =~= s@.subrange(p4 as int, n - 1));
                    assert(t.drop_last().len() >= 1);
                }
            }
            return None;
        }
        match parse_number(s, p4, n - 1) {
            None => {
                proof {
                    assert(t.drop_last() =~= s@.subrange(p4 as int, n - 1));
                    assert(t.last() == s@[n - 1]);
                }
                return None;
            },
            Some(v) => {
                proof {
                    assert(t.drop_last() =~= s@.subrange(p4 as int, n - 1));
                    assert(t.last() == s@[n - 1]);
                }
                Some(v)
            },
        }
    };
    let c = Cookie {
        domain: copy_range(s, 11, q1),
        path: copy_range(s, q1 + 10, q2),
        name: copy_range(s, q2 + 10, q3),
        value: copy_range(s, q3 + 11, q4),
        expiry,
    };
    proof {
        lemma_spec_find(s@, '"', 11);
        lemma_spec_find(s@, '"', q1 as int + 10);
        lemma_spec_find(s@, '"', q2 as int + 10);
        lemma_spec_find(s@, '"', q3 as int + 11);
        if forall|k: int| 0 <= k < s@.len() ==> s@[k] != '\n' {
            assert forall|k: int| 0 <= k < c@.domain.len() implies c@.domain[k] != '"'
                && c@.domain[k] != '\n' by {
                assert(c@.domain[k] == s@[11 + k]);
            }
            assert forall|k: int| 0 <= k < c@.path.len() implies c@.path[k] != '"' && c@.path[k]
                != '\n' by {
                assert(c@.path[k] == s@[q1 + 10 + k]);
            }
            assert forall|k: int| 0 <= k < c@.name.len() implies c@.name[k] != '"' && c@.name[k]
                != '\n' by {
                assert(c@.name[k] == s@[q2 + 10 + k]);
            }
            assert forall|k: int| 0 <= k < c@.value.len() implies c@.value[k] != '"'
                && c@.value[k] != '\n' by {
                assert(c@.value[k] == s@[q3 + 11 + k]);
            }
        }
    }
    Some(c)
}

/// Reads a whole snapshot, as `sp_jar` does, refusing a text whose
/// cookies repeat a scope key.
pub fn parse_jar(s: &str) -> (r: Result<Jar, Error>)
    ensures
        match r {
            Ok(j) => sp_jar(s@) == Some(j@) && j.wf(),
            Err(e) => e == Error::StoreCorrupt && (sp_jar(s@) is None || !key_unique(
                sp_jar(s@)->Some_0,
            )),
        },
{
    let n = s.unicode_len();
    let mut jar = Jar::new();
    let mut pos: usize = 0;
    proof {
        assert(s@.subrange(0, n as int) =~= s@);
        if sp_jar(s@) is Some {
            assert(Seq::<CookieModel>::empty() + sp_jar(s@)->Some_0 =~= sp_jar(s@)->Some_0);
        }
    }
    while pos < n
        invariant
            0 <= pos <= n,
            n == s@.len(),
            jar.wf(),
            sp_jar(s@) == match sp_jar(s@.subrange(pos as int, n as int)) {
                None => None::<Seq<CookieModel>>,
                Some(rest) => Some(jar@ + rest),
            },
        decreases n - pos,
    {
        let ghost tail = s@.subrange(pos as int, n as int);
        proof {
            lemma_find_shift(s@, '\n', pos as int, pos as int);
        }
        let nl = match find_char(s, '\n', pos) {
            None => {
                proof {
                    assert(spec_find(tail, '\n', 0) == -1);
                    assert(sp_jar(tail) is None);
                }
                return Err(Error::StoreCorrupt);
            },
            Some(i) => i,
        };
        proof {
            assert(spec_find(tail, '\n', 0) == nl - pos);
        }
        let line = copy_range(s, pos, nl);
        proof {
            assert(line@ =~= tail.subrange(0, nl - pos));
        }
        match parse_line(line.as_str()) {
            None => {
                proof {
                    assert(sp_jar(tail) is None);
                }
                return Err(Error::StoreCorrupt);
            },
            Some(c) => {
                let ghost tail2 = s@.subrange(nl as int + 1, n as int);
                proof {
                    assert(tail.subrange(nl - pos + 1, tail.len() as int) =~= tail2);
                    assert(sp_jar(tail) == match sp_jar(tail2) {
                        None => None::<Seq<CookieModel>>,
                        Some(rest2) => Some(seq![c@] + rest2),
                    });
                    lemma_spec_find(s@, '\n', pos as int);
                    assert forall|k: int| 0 <= k < line@.len() implies line@[k] != '\n' by {
                        assert(line@[k] == s@[pos + k]);
                    }
                    assert(storable(c@));
                }
                if jar.contains_key(c.domain.as_str(), c.path.as_str(), c.name.as_str()) {
                    proof {
                        let i = choose|i: int|
                            0 <= i < jar@.len() && has_key(
                                #[trigger] jar@[i],
                                c.domain@,
                                c.path@,
                                c.name@,
                            );
                        if sp_jar(tail2) is Some {
                            let full = jar@ + (seq![c@] + sp_jar(tail2)->Some_0);
                            assert(full[i] == jar@[i]);
                            assert(full[jar@.len() as int] == c@);
                            assert(same_key(full[i], full[jar@.len() as int]));
                            assert(!key_unique(full));
                        }
                    }
                    return Err(Error::StoreCorrupt);
                }
                let ghost prior = jar@;
                proof {
                    assert forall|i: int| 0 <= i < prior.len() implies !same_key(
                        #[trigger] prior[i],
                        c@,
                    ) by {
                        assert(!has_key(prior[i], c.domain@, c.path@, c.name@));
                    }
                }
                let inserted = jar.insert(c);
                proof {
                    assert(inserted);
                    let f = |e: CookieModel| !same_key(e, c@);
                    lemma_filter_identity(prior, f);
                    assert(jar@ == prior.push(c@));
                    if sp_jar(tail2) is Some {
                        let rest2 = sp_jar(tail2)->Some_0;
                        assert(prior + (seq![c@] + rest2) =~= prior.push(c@) + rest2);
                    }
                }
                pos = nl + 1;
            },
        }
    }
    proof {
        assert(s@.subrange(pos as int, n as int) =~= Seq::<char>::empty());
        assert(sp_jar(Seq::<char>::empty()) == Some(Seq::<CookieModel>::empty()));
        assert(jar@ + Seq::<CookieModel>::empty() =~= jar@);
    }
    Ok(jar)
}

// ---------------------------------------------------------------------------
// Response bodies: flat JSON objects
// ---------------------------------------------------------------------------
//
// A response of this protocol is one JSON object, with insignificant
// whitespace anywhere the JSON grammar allows it and the members in
// any order. A member the caller does not ask for may hold a string,
// a number, a boolean, `null`, or a nested object or array, which is
// skipped over: brackets inside it are balanced by count, though each
// closer is not matched by kind against its opener, and the digits of
// a number are not inspected. Member names and the sought value are
// taken verbatim, so a name or a sought value written with escape
// sequences is not recognised; the sought member itself must be a
// string or `null`.

/// What the sought member of a response object turned out to be.
pub ghost enum ObjValue {
    /// The body is not an object of this shape.
    Malformed,
    /// A well-formed object without the sought member.
    Missing,
    /// The sought member is `null`.
    Null,
    /// The sought member is the string with this text.
    Text(Seq<char>),
}

/// JSON insignificant whitespace.
pub open spec fn is_ws(c: char) -> bool {
    c == ' ' || c == '\t' || c == '\n' || c == '\r'
}

/// A character that may stand in an unquoted scalar: anything up to the
/// next structural character or whitespace.
pub open spec fn is_scalar_char(c: char) -> bool {
    !is_ws(c) && c != ',' && c != ':' && c != '"' && c != '{' && c != '}' && c != '['
        && c != ']'
}

/// First position at or after `i` that holds no whitespace.
pub open spec fn sp_ws(s: Seq<char>, i: int) -> int
    decreases s.len() - i,
{
    if i >= s.len() {
        s.len() as int
    } else if is_ws(s[i]) {
        sp_ws(s, i + 1)
    } else {
        i
    }
}

/// Position after the closing quote of a string whose text starts at
/// `i` (the opening quote stands at `i - 1`); `-1` if it never closes.
/// A backslash carries the following character, whatever it is.
pub open spec fn sp_string_tail(s: Seq<char>, i: int) -> int
    decreases s.len() - i,
{
    if i >= s.len() {
        -1
    } else if s[i] == '"' {
        i + 1
    } else if s[i] == '\\' {
        if i + 1 < s.len() {
            sp_string_tail(s, i + 2)
        } else {
            -1
        }
    } else {
        sp_string_tail(s, i + 1)
    }
}

/// End of the run of scalar characters beginning at `i`.
pub open spec fn sp_scalar_end(s: Seq<char>, i: int) -> int
    decreases s.len() - i,
{
    if i < s.len() && is_scalar_char(s[i]) {
        sp_scalar_end(s, i + 1)
    } else {
        i
    }
}

/// A character a number may be written with; the arrangement of the
/// digits is not checked.
pub open spec fn is_number_char(c: char) -> bool {
    c == '0' || c == '1' || c == '2' || c == '3' || c == '4' || c == '5' || c == '6' || c == '7'
        || c == '8' || c == '9' || c == '-' || c == '+' || c == '.' || c == 'e' || c == 'E'
}

/// An unquoted scalar that JSON allows as a member value: one of the
/// three keywords, or a run of number characters.
pub open spec fn scalar_ok(run: Seq<char>) -> bool {
    ||| run == "null"@
    ||| run == "true"@
    ||| run == "false"@
    ||| (run.len() >= 1 && forall|t: int| 0 <= t < run.len() ==> is_number_char(#[trigger] run[t]))
}

/// Position after a nested value whose `depth` opening brackets are
/// already behind `i`: closers are counted down to zero, strings inside
/// are skipped with their escapes, and each closer balances the count
/// without being matched by kind against its opener. `-1` where the
/// text ends first. One unit of fuel is spent per step, so the length
/// of the remaining text is always ample.
pub open spec fn sp_nest_end(s: Seq<char>, i: int, depth: nat, fuel: nat) -> int
    decreases fuel,
{
    if fuel == 0 || i >= s.len() {
        -1
    } else if s[i] == '"' {
        let e = sp_string_tail(s, i + 1);
        if e < 0 {
            -1
        } else {
            sp_nest_end(s, e, depth, (fuel - 1) as nat)
        }
    } else if s[i] == '{' || s[i] == '[' {
        sp_nest_end(s, i + 1, depth + 1, (fuel - 1) as nat)
    } else if s[i] == '}' || s[i] == ']' {
        if depth == 1 {
            i + 1
        } else {
            sp_nest_end(s, i + 1, (depth - 1) as nat, (fuel - 1) as nat)
        }
    } else {
        sp_nest_end(s, i + 1, depth, (fuel - 1) as nat)
    }
}

/// End of the member value starting at `i`: a string, a nested object
/// or array, or an unquoted scalar; `-1` where none stands there.
pub open spec fn sp_value_end(s: Seq<char>, i: int) -> int {
    if i >= s.len() {
        -1
    } else if s[i] == '"' {
        sp_string_tail(s, i + 1)
    } else if s[i] == '{' || s[i] == '[' {
        sp_nest_end(s, i + 1, 1, (s.len() - i) as nat)
    } else {
        let e = sp_scalar_end(s, i);
        if scalar_ok(s.subrange(i, e)) {
            e
        } else {
            -1
        }
    }
}

/// What the member value spanning `[k, ve)` means where it is the
/// sought one: a verbatim string, `null`, or nothing this protocol's
/// fields may hold.
pub open spec fn sp_field_value(s: Seq<char>, k: int, ve: int) -> ObjValue {
    if k < s.len() && s[k] == '"' {
        if forall|t: int| k + 1 <= t < ve - 1 ==> s[t] != '\\' {
            ObjValue::Text(s.subrange(k + 1, ve - 1))
        } else {
            ObjValue::Malformed
        }
    } else if s.subrange(k, ve) == "null"@ {
        ObjValue::Null
    } else {
        ObjValue::Malformed
    }
}

/// Walks the members of an object from the first member name at `i`,
/// looking for `key`. The whole remainder must be well-formed, and the
/// first member named `key` decides the result. The fuel only bounds
/// the recursion; one unit per member is ample.
pub open spec fn sp_obj_members(s: Seq<char>, i: int, key: Seq<char>, fuel: nat) -> ObjValue
    decreases fuel,
{
    if fuel == 0 {
        ObjValue::Malformed
    } else if i >= s.len() || s[i] != '"' {
        ObjValue::Malformed
    } else {
        let ke = sp_string_tail(s, i + 1);
        if ke < 0 {
            ObjValue::Malformed
        } else {
            let j = sp_ws(s, ke);
            if j >= s.len() || s[j] != ':' {
                ObjValue::Malformed
            } else {
                let k = sp_ws(s, j + 1);
                let ve = sp_value_end(s, k);
                if ve < 0 {
                    ObjValue::Malformed
                } else {
                    let m = sp_ws(s, ve);
                    let rest = if m < s.len() && s[m] == ',' {
                        sp_obj_members(s, sp_ws(s, m + 1), key, (fuel - 1) as nat)
                    } else if m < s.len() && s[m] == '}' {
                        if sp_ws(s, m + 1) == s.len() {
                            ObjValue::Missing
                        } else {
                            ObjValue::Malformed
                        }
                    } else {
                        ObjValue::Malformed
                    };
                    if rest is Malformed {
                        ObjValue::Malformed
                    } else if s.subrange(i + 1, ke - 1) == key {
                        sp_field_value(s, k, ve)
                    } else {
                        rest
                    }
                }
            }
        }
    }
}

/// What a response body means for the member named `key`.
pub open spec fn sp_obj(s: Seq<char>, key: Seq<char>) -> ObjValue {
    let i = sp_ws(s, 0);
    if i >= s.len() || s[i] != '{' {
        ObjValue::Malformed
    } else {
        let j = sp_ws(s, i + 1);
        if j < s.len() && s[j] == '}' {
            if sp_ws(s, j + 1) == s.len() {
                ObjValue::Missing
            } else {
                ObjValue::Malformed
            }
        } else {
            sp_obj_members(s, j, key, s.len() as nat)
        }
    }
}

/// The canonical response object with the given key and optional text
/// value.
pub open spec fn enc_obj(key: Seq<char>, v: Option<Seq<char>>) -> Seq<char> {
    match v {
        None => "{\""@ + key + "\":null}"@,
        Some(val) => "{\""@ + key + "\":\""@ + val + "\"}"@,
    }
}

/// `sp_ws` finds the first non-whitespace position and skips nothing
/// else.
pub proof fn lemma_sp_ws(s: Seq<char>, i: int)
    requires
        0 <= i <= s.len(),
    ensures
        i <= sp_ws(s, i) <= s.len(),
        sp_ws(s, i) < s.len() ==> !is_ws(s[sp_ws(s, i)]),
        forall|t: int| i <= t < sp_ws(s, i) ==> is_ws(#[trigger] s[t]),
    decreases s.len() - i,
{
    if i < s.len() && is_ws(s[i]) {
        lemma_sp_ws(s, i + 1);
    }
}

/// On a text free of quotes and backslashes, the string scan stops at
/// the terminating quote.
pub proof fn lemma_string_tail_clean(s: Seq<char>, i: int, close: int)
    requires
        0 <= i <= close < s.len(),
        forall|t: int| i <= t < close ==> s[t] != '"' && s[t] != '\\',
        s[close] == '"',
    ensures
        sp_string_tail(s, i) == close + 1,
    decreases close - i,
{
    if i < close {
        lemma_string_tail_clean(s, i + 1, close);
    }
}

/// A run of scalar characters ending at a delimiter is what the scalar
/// scan yields.
pub proof fn lemma_scalar_end_run(s: Seq<char>, i: int, e: int)
    requires
        0 <= i <= e <= s.len(),
        forall|t: int| i <= t < e ==> is_scalar_char(#[trigger] s[t]),
        e == s.len() || !is_scalar_char(s[e]),
    ensures
        sp_scalar_end(s, i) == e,
    decreases e - i,
{
    if i < e {
        lemma_scalar_end_run(s, i + 1, e);
    }
}

/// A canonical response object built from a quote-free, backslash-free
/// key and value parses back to that value.
#[verifier::rlimit(100)]
pub proof fn lemma_obj_round_trip(key: Seq<char>, v: Option<Seq<char>>)
    requires
        forall|t: int| 0 <= t < key.len() ==> key[t] != '"' && key[t] != '\\',
        v matches Some(val) ==> forall|t: int| 0 <= t < val.len() ==> val[t] != '"' && val[t]
            != '\\',
    ensures
        sp_obj(enc_obj(key, v), key) == match v {
            None => ObjValue::Null,
            Some(val) => ObjValue::Text(val),
        },
{
    reveal_strlit("{\"");
    reveal_strlit("\":null}");
    reveal_strlit("\":\"");
    reveal_strlit("\"}");
    reveal_strlit("null");
    let s = enc_obj(key, v);
    let kl = key.len() as int;
    assert(!is_ws('{') && !is_ws('"'));
    assert(s[0] == '{');
    assert(sp_ws(s, 0) == 0);
    assert(s[1] == '"');
    assert(sp_ws(s, 1) == 1);
    // the member name closes right after the key text
    assert forall|t: int| 2 <= t < 2 + kl implies s[t] != '"' && s[t] != '\\' by {
        assert(s[t] == key[t - 2]);
    }
    assert(s[2 + kl] == '"');
    lemma_string_tail_clean(s, 2, 2 + kl);
    let ke = 3 + kl;
    assert(s.subrange(2, ke - 1) =~= key);
    assert(s[ke] == ':');
    assert(sp_ws(s, ke) == ke);
    let k = ke + 1;
    assert(sp_ws(s, k) == k) by {
        match v {
            None => {
                assert(s[k] == 'n');
            },
            Some(_) => {
                assert(s[k] == '"');
            },
        }
    }
    match v {
        None => {
            // the value is the keyword `null`, then the closing brace
            assert(s.len() == k + 5);
            assert forall|t: int| k <= t < k + 4 implies is_scalar_char(#[trigger] s[t]) by {
                assert(s[t] == "null"@[t - k]);
            }
            assert(s[k + 4] == '}');
            assert(!is_scalar_char('}'));
            lemma_scalar_end_run(s, k, k + 4);
            assert(s.subrange(k, k + 4) =~= "null"@);
            assert(sp_value_end(s, k) == k + 4);
            assert(sp_ws(s, k + 4) == k + 4);
            assert(sp_ws(s, k + 5) == s.len());
            assert(sp_field_value(s, k, k + 4) == ObjValue::Null);
            assert(sp_obj_members(s, 1, key, s.len() as nat) == ObjValue::Null);
        },
        Some(val) => {
            let vl = val.len() as int;
            assert(s[k] == '"');
            assert forall|t: int| k + 1 <= t < k + 1 + vl implies s[t] != '"' && s[t]
                != '\\' by {
                assert(s[t] == val[t - (k + 1)]);
            }
            assert(s[k + 1 + vl] == '"');
            lemma_string_tail_clean(s, k + 1, k + 1 + vl);
            let ve = k + 2 + vl;
            assert(sp_value_end(s, k) == ve);
            assert(s[ve] == '}');
            assert(sp_ws(s, ve) == ve);
            assert(s.len() == ve + 1);
            assert(sp_ws(s, ve + 1) == s.len());
            assert(s.subrange(k + 1, ve - 1) =~= val);
            assert(sp_field_value(s, k, ve) == ObjValue::Text(val));
            assert(sp_obj_members(s, 1, key, s.len() as nat) == ObjValue::Text(val));
        },
    }
}

/// What the sought member held, as executable data.
#[derive(Debug, PartialEq, Eq)]
pub enum FieldValue {
    /// A well-formed object without the sought member.
    Absent,
    /// The sought member is `null`.
    Null,
    /// The sought member is this string.
    Text(String),
}

/// Skip insignificant whitespace from `i`.
fn scan_ws(s: &str, i: usize) -> (r: usize)
    requires
        i <= s@.len(),
    ensures
        r == sp_ws(s@, i as int),
        i <= r <= s@.len(),
{
    let n = s.unicode_len();
    let mut cur = i;
    while cur < n
        invariant
            i <= cur <= n,
            n == s@.len(),
            sp_ws(s@, i as int) == sp_ws(s@, cur as int),
        decreases n - cur,
    {
        let c = s.get_char(cur);
        if !(c == ' ' || c == '\t' || c == '\n' || c == '\r') {
            return cur;
        }
        cur += 1;
    }
    cur
}

/// Scan a string body from `i` (the opening quote stands at `i - 1`),
/// as `sp_string_tail` does.
fn scan_string_tail(s: &str, i: usize) -> (r: Option<usize>)
    requires
        i <= s@.len(),
    ensures
        match r {
            Some(e) => sp_string_tail(s@, i as int) == e && i < e <= s@.len(),
            None => sp_string_tail(s@, i as int) == -1,
        },
{
    let n = s.unicode_len();
    let mut cur = i;
    while cur < n
        invariant
            i <= cur <= n,
            n == s@.len(),
            sp_string_tail(s@, i as int) == sp_string_tail(s@, cur as int),
        decreases n - cur,
    {
        let c = s.get_char(cur);
        if c == '"' {
            return Some(cur + 1);
        }
        if c == '\\' {
            if cur + 1 >= n {
                return None;
            }
            cur += 2;
        } else {
            cur += 1;
        }
    }
    None
}

/// Is `c` free to stand in an unquoted scalar?
fn scalar_char(c: char) -> (r: bool)
    ensures
        r == is_scalar_char(c),
{
    !(c == ' ' || c == '\t' || c == '\n' || c == '\r' || c == ',' || c == ':' || c == '"'
        || c == '{' || c == '}' || c == '[' || c == ']')
}

/// End of the scalar run from `i`, as `sp_scalar_end` does.
fn scan_scalar(s: &str, i: usize) -> (r: usize)
    requires
        i <= s@.len(),
    ensures
        r == sp_scalar_end(s@, i as int),
        i <= r <= s@.len(),
{
    let n = s.unicode_len();
    let mut cur = i;
    while cur < n
        invariant
            i <= cur <= n,
            n == s@.len(),
            sp_scalar_end(s@, i as int) == sp_scalar_end(s@, cur as int),
        decreases n - cur,
    {
        if !scalar_char(s.get_char(cur)) {
            return cur;
        }
        cur += 1;
    }
    cur
}

/// Does the run `[i, e)` satisfy `scalar_ok`?
fn scalar_run_ok(s: &str, i: usize, e: usize) -> (r: bool)
    requires
        i <= e <= s@.len(),
    ensures
        r == scalar_ok(s@.subrange(i as int, e as int)),
{
    let ghost run = s@.subrange(i as int, e as int);
    proof {
        reveal_strlit("null");
        reveal_strlit("true");
        reveal_strlit("false");
    }
    if has_lit_at(s, i, "null") && e - i == 4 {
        proof {
            assert(run =~= "null"@);
        }
        return true;
    }
    if has_lit_at(s, i, "true") && e - i == 4 {
        proof {
            assert(run =~= "true"@);
        }
        return true;
    }
    if has_lit_at(s, i, "false") && e - i == 5 {
        proof {
            assert(run =~= "false"@);
        }
        return true;
    }
    proof {
        if run == "null"@ {
            assert(s@.subrange(i as int, i as int + 4) =~= run);
            assert(false);
        }
        if run == "true"@ {
            assert(s@.subrange(i as int, i as int + 4) =~= run);
            assert(false);
        }
        if run == "false"@ {
            assert(s@.subrange(i as int, i as int + 5) =~= run);
            assert(false);
        }
    }
    if i == e {
        return false;
    }
    let mut cur = i;
    while cur < e
        invariant
            i <= cur <= e,
            e <= s@.len(),
            run == s@.subrange(i as int, e as int),
            run != "null"@,
            run != "true"@,
            run != "false"@,
            forall|t: int| 0 <= t < cur - i ==> is_number_char(#[trigger] run[t]),
        decreases e - cur,
    {
        let c = s.get_char(cur);
        let numeric = c == '0' || c == '1' || c == '2' || c == '3' || c == '4' || c == '5'
            || c == '6' || c == '7' || c == '8' || c == '9' || c == '-' || c == '+' || c == '.'
            || c == 'e' || c == 'E';
        if !numeric {
            proof {
                assert(run[cur - i] == c);
                if forall|t: int| 0 <= t < run.len() ==> is_number_char(#[trigger] run[t]) {
                    assert(is_number_char(run[cur - i]));
                    assert(false);
                }
            }
            return false;
        }
        cur += 1;
    }
    true
}

/// Skip a nested value entered with one open bracket just before `i`,
/// as `sp_nest_end` does with depth 1.
fn scan_nest(s: &str, i: usize, fuel: usize) -> (r: Option<usize>)
    requires
        1 <= i <= s@.len(),
    ensures
        match r {
            Some(e) => sp_nest_end(s@, i as int, 1, fuel as nat) == e && i <= e <= s@.len(),
            None => sp_nest_end(s@, i as int, 1, fuel as nat) == -1,
        },
{
    let n = s.unicode_len();
    let mut cur = i;
    let mut depth: usize = 1;
    let mut f = fuel;
    loop
        invariant
            i <= cur <= n,
            n == s@.len(),
            1 <= depth <= cur,
            sp_nest_end(s@, i as int, 1, fuel as nat) == sp_nest_end(
                s@,
                cur as int,
                depth as nat,
                f as nat,
            ),
        decreases f,
    {
        if f == 0 || cur >= n {
            return None;
        }
        let c = s.get_char(cur);
        if c == '"' {
            match scan_string_tail(s, cur + 1) {
                None => {
                    return None;
                },
                Some(e) => {
                    cur = e;
                    f -= 1;
                },
            }
        } else if c == '{' || c == '[' {
            depth += 1;
            cur += 1;
            f -= 1;
        } else if c == '}' || c == ']' {
            if depth == 1 {
                return Some(cur + 1);
            }
            depth -= 1;
            cur += 1;
            f -= 1;
        } else {
            cur += 1;
            f -= 1;
        }
    }
}

/// End of the member value at `i`, as `sp_value_end` does.
fn scan_value(s: &str, i: usize) -> (r: Option<usize>)
    requires
        i <= s@.len(),
    ensures
        match r {
            Some(e) => sp_value_end(s@, i as int) == e && i < e <= s@.len() && (s@[i as int]
                == '"' ==> e >= i + 2),
            None => sp_value_end(s@, i as int) == -1,
        },
{
    let n = s.unicode_len();
    if i >= n {
        return None;
    }
    let c0 = s.get_char(i);
    if c0 == '"' {
        return scan_string_tail(s, i + 1);
    }
    if c0 == '{' || c0 == '[' {
        return scan_nest(s, i + 1, n - i);
    }
    let e = scan_scalar(s, i);
    if scalar_run_ok(s, i, e) {
        proof {
            if i == e {
                assert(s@.subrange(i as int, i as int) =~= Seq::<char>::empty());
                reveal_strlit("null");
                reveal_strlit("true");
                reveal_strlit("false");
                assert(!scalar_ok(Seq::<char>::empty()));
            }
        }
        Some(e)
    } else {
        None
    }
}

/// Read the sought member's value span as a `FieldValue`, as
/// `sp_field_value` does.
fn read_field_value(s: &str, k: usize, ve: usize) -> (r: Option<FieldValue>)
    requires
        k < ve <= s@.len(),
        s@[k as int] == '"' ==> ve >= k + 2,
    ensures
        match r {
            Some(FieldValue::Null) => sp_field_value(s@, k as int, ve as int) == ObjValue::Null,
            Some(FieldValue::Text(v)) => sp_field_value(s@, k as int, ve as int)
                == ObjValue::Text(v@),
            Some(FieldValue::Absent) => false,
            None => sp_field_value(s@, k as int, ve as int) == ObjValue::Malformed,
        },
{
    proof {
        reveal_strlit("null");
    }
    if s.get_char(k) == '"' {
        let mut cur = k + 1;
        let stop = ve - 1;
        while cur < stop
            invariant
                k + 1 <= cur,
                cur <= stop,
                stop == ve - 1,
                ve <= s@.len(),
                s@[k as int] == '"',
                forall|t: int| k + 1 <= t < cur ==> s@[t] != '\\',
            decreases stop - cur,
        {
            if s.get_char(cur) == '\\' {
                proof {
                    if forall|t: int| k + 1 <= t < ve - 1 ==> s@[t] != '\\' {
                        assert(s@[cur as int] != '\\');
                        assert(false);
                    }
                }
                return None;
            }
            cur += 1;
        }
        let text = copy_range(s, k + 1, ve - 1);
        Some(FieldValue::Text(text))
    } else {
        if ve - k == 4 && has_lit_at(s, k, "null") {
            proof {
                assert(s@.subrange(k as int, ve as int) =~= "null"@);
            }
            Some(FieldValue::Null)
        } else {
            proof {
                if s@.subrange(k as int, ve as int) == "null"@ {
                    assert(s@.subrange(k as int, k as int + 4) =~= s@.subrange(
                        k as int,
                        ve as int,
                    ));
                    assert(false);
                }
            }
            None
        }
    }
}

/// Walk the members from the name at `i`, as `sp_obj_members` does.
fn parse_members(s: &str, i: usize, key: &str, fuel: usize) -> (r: Option<FieldValue>)
    requires
        i <= s@.len(),
    ensures
        match r {
            Some(FieldValue::Absent) => sp_obj_members(s@, i as int, key@, fuel as nat)
                == ObjValue::Missing,
            Some(FieldValue::Null) => sp_obj_members(s@, i as int, key@, fuel as nat)
                == ObjValue::Null,
            Some(FieldValue::Text(v)) => sp_obj_members(s@, i as int, key@, fuel as nat)
                == ObjValue::Text(v@),
            None => sp_obj_members(s@, i as int, key@, fuel as nat) == ObjValue::Malformed,
        },
    decreases fuel,
{
    let n = s.unicode_len();
    if fuel == 0 {
        return None;
    }
    if i >= n || s.get_char(i) != '"' {
        return None;
    }
    let ke = match scan_string_tail(s, i + 1) {
        None => {
            return None;
        },
        Some(e) => e,
    };
    let j = scan_ws(s, ke);
    if j >= n || s.get_char(j) != ':' {
        return None;
    }
    let k = scan_ws(s, j + 1);
    let ve = match scan_value(s, k) {
        None => {
            return None;
        },
        Some(e) => e,
    };
    let m = scan_ws(s, ve);
    let rest: Option<FieldValue> = if m < n && s.get_char(m) == ',' {
        let next = scan_ws(s, m + 1);
        parse_members(s, next, key, fuel - 1)
    } else if m < n && s.get_char(m) == '}' {
        if scan_ws(s, m + 1) == n {
            Some(FieldValue::Absent)
        } else {
            None
        }
    } else {
        None
    };
    match rest {
        None => None,
        Some(found) => {
            let klen = key.unicode_len();
            let matched = ke - 1 >= i + 1 && ke - 1 - (i + 1) == klen && has_lit_at(s, i + 1, key);
            proof {
                if matched {
                    assert(s@.subrange(i as int + 1, ke as int - 1) =~= key@);
                } else {
                    if s@.subrange(i as int + 1, ke as int - 1) == key@ {
                        assert(s@.subrange(i as int + 1, i as int + 1 + key@.len() as int)
                            =~= s@.subrange(i as int + 1, ke as int - 1));
                        assert(false);
                    }
                }
            }
            if matched {
                read_field_value(s, k, ve)
            } else {
                Some(found)
            }
        },
    }
}

/// Read a response body for the member named `key`, exactly as `sp_obj`
/// does: a flat JSON object, whitespace and other members welcome.
pub fn parse_obj(s: &str, key: &str) -> (r: Option<FieldValue>)
    ensures
        match r {
            Some(FieldValue::Absent) => sp_obj(s@, key@) == ObjValue::Missing,
            Some(FieldValue::Null) => sp_obj(s@, key@) == ObjValue::Null,
            Some(FieldValue::Text(v)) => sp_obj(s@, key@) == ObjValue::Text(v@),
            None => sp_obj(s@, key@) == ObjValue::Malformed,
        },
{
    let n = s.unicode_len();
    let i = scan_ws(s, 0);
    if i >= n || s.get_char(i) != '{' {
        return None;
    }
    let j = scan_ws(s, i + 1);
    if j < n && s.get_char(j) == '}' {
        if scan_ws(s, j + 1) == n {
            return Some(FieldValue::Absent);
        }
        return None;
    }
    parse_members(s, j, key, n)
}

} // verus!
