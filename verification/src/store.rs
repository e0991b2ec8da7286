use vstd::prelude::*;
use vstd::string::*;

use crate::codec::{enc_jar, parse_jar, sp_jar};
use crate::strutil::str_eq;
use crate::Error;

verus! {

/// Mathematical model of one cookie: the fields the session logic reads.
pub ghost struct CookieModel {
    pub domain: Seq<char>,
    pub path: Seq<char>,
    pub name: Seq<char>,
    pub value: Seq<char>,
    pub expiry: Option<u64>,
}

/// One cookie: scope key (domain, path, name), value, and an optional
/// expiry instant in seconds. `expiry == None` means the cookie never
/// expires on its own.
#[derive(Debug)]
pub struct Cookie {
    pub domain: String,
    pub path: String,
    pub name: String,
    pub value: String,
    pub expiry: Option<u64>,
}

impl View for Cookie {
    type V = CookieModel;

    open spec fn view(&self) -> CookieModel {
        CookieModel {
            domain: self.domain@,
            path: self.path@,
            name: self.name@,
            value: self.value@,
            expiry: self.expiry,
        }
    }
}

/// A text field that the jar snapshot can carry verbatim: free of the
/// two delimiter characters of the snapshot format.
pub open spec fn plain(s: Seq<char>) -> bool {
    forall|i: int| 0 <= i < s.len() ==> s[i] != '"' && s[i] != '\n'
}

/// A cookie whose text fields the snapshot format can represent.
pub open spec fn storable(c: CookieModel) -> bool {
    plain(c.domain) && plain(c.path) && plain(c.name) && plain(c.value)
}

/// Two cookies with the same scope key.
pub open spec fn same_key(a: CookieModel, b: CookieModel) -> bool {
    a.domain == b.domain && a.path == b.path && a.name == b.name
}

/// Does the cookie carry the given scope key?
pub open spec fn has_key(c: CookieModel, domain: Seq<char>, path: Seq<char>, name: Seq<char>) -> bool {
    c.domain == domain && c.path == path && c.name == name
}

/// First cookie in `s` with the given scope key, if any.
pub open spec fn find_cookie(
    s: Seq<CookieModel>,
    domain: Seq<char>,
    path: Seq<char>,
    name: Seq<char>,
) -> Option<CookieModel>
    decreases s.len(),
{
    if s.len() == 0 {
        None
    } else if has_key(s[0], domain, path, name) {
        Some(s[0])
    } else {
        find_cookie(s.drop_first(), domain, path, name)
    }
}

/// A cookie is live at `now` if it has no expiry or its expiry lies ahead.
pub open spec fn fresh(c: CookieModel, now: u64) -> bool {
    match c.expiry {
        None => true,
        Some(t) => now < t,
    }
}

/// The in-memory cookie jar: a set of cookies, at most one per scope key,
/// every one of them representable in the snapshot format.
#[derive(Debug)]
pub struct Jar {
    entries: Vec<Cookie>,
}

impl View for Jar {
    type V = Seq<CookieModel>;

    closed spec fn view(&self) -> Seq<CookieModel> {
        Seq::new(self.entries@.len(), |i: int| self.entries@[i]@)
    }
}

/// No two cookies of `s` share a scope key.
pub open spec fn key_unique(s: Seq<CookieModel>) -> bool {
    forall|i: int, j: int|
        0 <= i < j < s.len() ==> !same_key(#[trigger] s[i], #[trigger] s[j])
}

/// Well-formedness of a jar model: unique scope keys, storable fields.
pub open spec fn jar_wf(s: Seq<CookieModel>) -> bool {
    &&& forall|i: int| 0 <= i < s.len() ==> storable(#[trigger] s[i])
    &&& key_unique(s)
}

impl Jar {
    /// Invariant carried by every `Jar` the library hands out.
    pub open spec fn wf(&self) -> bool {
        jar_wf(self@)
    }

    /// The empty jar.
    pub fn new() -> (r: Jar)
        ensures
            r@ == Seq::<CookieModel>::empty(),
            r.wf(),
    {
        let r = Jar { entries: Vec::new() };
        proof {
            assert(r@ =~= Seq::<CookieModel>::empty());
        }
        r
    }

    /// Number of cookies held.
    pub fn len(&self) -> (n: usize)
        ensures
            n == self@.len(),
    {
        self.entries.len()
    }

    /// The cookie at position `i`, for enumeration.
    pub fn cookie_at(&self, i: usize) -> (c: &Cookie)
        requires
            i < self@.len(),
        ensures
            c@ == self@[i as int],
    {
        &self.entries[i]
    }

    /// Position of the cookie with the given scope key, if one is held.
    fn position_of(&self, domain: &str, path: &str, name: &str) -> (r: Option<usize>)
        ensures
            match r {
                Some(i) => i < self@.len() && has_key(self@[i as int], domain@, path@, name@),
                None => forall|i: int|
                    0 <= i < self@.len() ==> !has_key(#[trigger] self@[i], domain@, path@, name@),
            },
    {
        let n = self.entries.len();
        let mut i: usize = 0;
        while i < n
            invariant
                0 <= i <= n,
                n == self@.len(),
                forall|k: int| 0 <= k < i ==> !has_key(#[trigger] self@[k], domain@, path@, name@),
            decreases n - i,
        {
            let c = &self.entries[i];
            if str_eq(c.domain.as_str(), domain) && str_eq(c.path.as_str(), path)
                && str_eq(c.name.as_str(), name) {
                return Some(i);
            }
            i += 1;
        }
        None
    }

    /// Is a cookie with the given scope key held?
    pub fn contains_key(&self, domain: &str, path: &str, name: &str) -> (r: bool)
        ensures
            r == exists|i: int| 0 <= i < self@.len() && has_key(#[trigger] self@[i], domain@, path@, name@),
    {
        match self.position_of(domain, path, name) {
            Some(i) => {
                proof {
                    assert(has_key(self@[i as int], domain@, path@, name@));
                }
                true
            },
            None => false,
        }
    }

    /// Insert a cookie, overwriting any cookie with the same scope key.
    /// Returns false, leaving the jar unchanged, if a text field holds a
    /// delimiter character of the snapshot format.
    pub fn insert(&mut self, c: Cookie) -> (r: bool)
        requires
            old(self).wf(),
        ensures
            final(self).wf(),
            r == storable(c@),
            r ==> final(self)@ == old(self)@.filter(|e: CookieModel| !same_key(e, c@)).push(c@),
            !r ==> final(self)@ == old(self)@,
    {
        if !field_ok(&c.domain) || !field_ok(&c.path) || !field_ok(&c.name) || !field_ok(&c.value) {
            return false;
        }
        let ghost prior = self@;
        let mut kept: Vec<Cookie> = Vec::new();
        let n = self.entries.len();
        let mut i: usize = 0;
        while i < n
            invariant
                0 <= i <= n,
                n == prior.len(),
                self@ == prior,
                jar_wf(prior),
                storable(c@),
                kept@.len() <= i,
                Seq::new(kept@.len(), |k: int| kept@[k]@) == prior.subrange(0, i as int).filter(
                    |e: CookieModel| !same_key(e, c@),
                ),
            decreases n - i,
        {
            proof {
                assert(prior.subrange(0, i + 1) =~= prior.subrange(0, i as int).push(prior[i as int]));
                reveal(Seq::filter);
            }
            let entry = self.entries[i].clone_cookie();
            let keep = !(str_eq(entry.domain.as_str(), c.domain.as_str())
                && str_eq(entry.path.as_str(), c.path.as_str())
                && str_eq(entry.name.as_str(), c.name.as_str()));
            proof {
                let sub = prior.subrange(0, i as int);
                assert(sub.push(prior[i as int]).drop_last() =~= sub);
            }
            if keep {
                kept.push(entry);
                proof {
                    let f = |e: CookieModel| !same_key(e, c@);
                    assert(Seq::new(kept@.len(), |k: int| kept@[k]@) =~= Seq::new(
                        (kept@.len() - 1) as nat,
                        |k: int| kept@[k]@,
                    ).push(prior[i as int]));
                }
            }
            i += 1;
        }
        proof {
            assert(prior.subrange(0, n as int) =~= prior);
        }
        kept.push(c);
        self.entries = kept;
        proof {
            broadcast use vstd::seq_lib::group_filter_ensures;

            let f = |e: CookieModel| !same_key(e, c@);
            assert(self@ =~= prior.filter(f).push(c@));
            lemma_filter_wf(prior, f);
            let out = prior.filter(f).push(c@);
            assert forall|a: int, b: int| 0 <= a < b < out.len() implies !same_key(out[a], out[b]) by {
                if b < out.len() - 1 {
                    assert(!same_key(prior.filter(f)[a], prior.filter(f)[b]));
                } else {
                    assert(f(prior.filter(f)[a]));
                }
            }
        }
        true
    }

    /// Drop the cookie with the given scope key, if one is held.
    pub fn remove(&mut self, domain: &str, path: &str, name: &str)
        requires
            old(self).wf(),
        ensures
            final(self).wf(),
            final(self)@ == old(self)@.filter(
                |e: CookieModel| !has_key(e, domain@, path@, name@),
            ),
    {
        let ghost prior = self@;
        let mut kept: Vec<Cookie> = Vec::new();
        let n = self.entries.len();
        let mut i: usize = 0;
        while i < n
            invariant
                0 <= i <= n,
                n == prior.len(),
                self@ == prior,
                jar_wf(prior),
                Seq::new(kept@.len(), |k: int| kept@[k]@) == prior.subrange(0, i as int).filter(
                    |e: CookieModel| !has_key(e, domain@, path@, name@),
                ),
            decreases n - i,
        {
            proof {
                assert(prior.subrange(0, i + 1) =~= prior.subrange(0, i as int).push(prior[i as int]));
                reveal(Seq::filter);
                let sub = prior.subrange(0, i as int);
                assert(sub.push(prior[i as int]).drop_last() =~= sub);
            }
            let entry = self.entries[i].clone_cookie();
            let keep = !(str_eq(entry.domain.as_str(), domain)
                && str_eq(entry.path.as_str(), path)
                && str_eq(entry.name.as_str(), name));
            if keep {
                kept.push(entry);
                proof {
                    assert(Seq::new(kept@.len(), |k: int| kept@[k]@) =~= Seq::new(
                        (kept@.len() - 1) as nat,
                        |k: int| kept@[k]@,
                    ).push(prior[i as int]));
                }
            }
            i += 1;
        }
        proof {
            assert(prior.subrange(0, n as int) =~= prior);
        }
        self.entries = kept;
        proof {
            let f = |e: CookieModel| !has_key(e, domain@, path@, name@);
            assert(self@ =~= prior.filter(f));
            lemma_filter_wf(prior, f);
        }
    }

    /// Value of the cookie with the given scope key, if held and live at
    /// `now`.
    pub fn lookup(&self, domain: &str, path: &str, name: &str, now: u64) -> (r: Option<String>)
        requires
            self.wf(),
        ensures
            match r {
                Some(v) => {
                    &&& find_cookie(self@, domain@, path@, name@) matches Some(c)
                    &&& find_cookie(self@, domain@, path@, name@) == Some(
                        CookieModel { value: v@, ..c },
                    )
                    &&& fresh(find_cookie(self@, domain@, path@, name@)->Some_0, now)
                },
                None => match find_cookie(self@, domain@, path@, name@) {
                    Some(c) => !fresh(c, now),
                    None => true,
                },
            },
    {
        let pos = self.position_of(domain, path, name);
        match pos {
            None => {
                proof {
                    lemma_find_cookie_none(self@, domain@, path@, name@);
                }
                None
            },
            Some(i) => {
                proof {
                    lemma_find_cookie_at(self@, domain@, path@, name@, i as int);
                }
                let c = &self.entries[i];
                let live = match c.expiry {
                    None => true,
                    Some(t) => now < t,
                };
                if live {
                    Some(c.value.clone())
                } else {
                    None
                }
            },
        }
    }
}

impl Cookie {
    /// A field-by-field copy.
    pub fn clone_cookie(&self) -> (r: Cookie)
        ensures
            r@ == self@,
    {
        Cookie {
            domain: self.domain.clone(),
            path: self.path.clone(),
            name: self.name.clone(),
            value: self.value.clone(),
            expiry: match self.expiry {
                None => None,
                Some(t) => Some(t),
            },
        }
    }
}

/// Filtering a well-formed jar model keeps it well-formed, and yields
/// only cookies the unfiltered jar held.
pub proof fn lemma_filter_wf(s: Seq<CookieModel>, f: spec_fn(CookieModel) -> bool)
    requires
        jar_wf(s),
    ensures
        jar_wf(s.filter(f)),
        forall|x: CookieModel| s.filter(f).contains(x) ==> s.contains(x),
    decreases s.len(),
{
    reveal(Seq::filter);
    if s.len() > 0 {
        let last = s.last();
        let prefix = s.drop_last();
        assert(forall|i: int| 0 <= i < prefix.len() ==> storable(#[trigger] prefix[i]));
        assert(forall|i: int, j: int|
            0 <= i < j < prefix.len() ==> !same_key(#[trigger] prefix[i], #[trigger] prefix[j]));
        broadcast use vstd::seq_lib::group_filter_ensures;

        lemma_filter_wf(prefix, f);
        let pf = prefix.filter(f);
        assert(s.filter(f) == if f(last) { pf.push(last) } else { pf });
        assert forall|x: CookieModel| s.filter(f).contains(x) implies s.contains(x) by {
            let idx = choose|idx: int| 0 <= idx < s.filter(f).len() && s.filter(f)[idx] == x;
            if idx < pf.len() {
                assert(pf[idx] == x);
                assert(pf.contains(x));
                assert(prefix.contains(x));
                let k = choose|k: int| 0 <= k < prefix.len() && prefix[k] == x;
                assert(prefix[k] == s[k]);
                assert(s[k] == x);
            } else {
                assert(x == last);
                assert(s[s.len() - 1] == x);
            }
        }
        if f(last) {
            let out = pf.push(last);
            assert(s.filter(f) == out);
            assert forall|i: int, j: int| 0 <= i < j < out.len() implies !same_key(
                out[i],
                out[j],
            ) by {
                if j == out.len() - 1 {
                    let fi = out[i];
                    assert(pf[i] == fi);
                    assert(pf.contains(fi));
                    assert(prefix.contains(fi));
                    let k = choose|k: int| 0 <= k < prefix.len() && prefix[k] == fi;
                    assert(!same_key(s[k], s[s.len() - 1]));
                } else {
                    assert(!same_key(pf[i], pf[j]));
                }
            }
            assert forall|i: int| 0 <= i < out.len() implies storable(#[trigger] out[i]) by {
                if i == out.len() - 1 {
                    assert(storable(s[s.len() - 1]));
                } else {
                    assert(storable(pf[i]));
                }
            }
        }
    }
}

/// A filter that holds everywhere keeps the whole sequence.
pub proof fn lemma_filter_identity(s: Seq<CookieModel>, f: spec_fn(CookieModel) -> bool)
    requires
        forall|i: int| 0 <= i < s.len() ==> f(#[trigger] s[i]),
    ensures
        s.filter(f) == s,
    decreases s.len(),
{
    reveal(Seq::filter);
    if s.len() > 0 {
        let prefix = s.drop_last();
        assert(forall|i: int| 0 <= i < prefix.len() ==> f(#[trigger] prefix[i]));
        lemma_filter_identity(prefix, f);
        assert(s.filter(f) =~= s);
    }
}

/// Where no position matches the key, `find_cookie` finds nothing.
pub proof fn lemma_find_cookie_none(
    s: Seq<CookieModel>,
    domain: Seq<char>,
    path: Seq<char>,
    name: Seq<char>,
)
    requires
        forall|i: int| 0 <= i < s.len() ==> !has_key(#[trigger] s[i], domain, path, name),
    ensures
        find_cookie(s, domain, path, name) is None,
    decreases s.len(),
{
    if s.len() > 0 {
        lemma_find_cookie_none(s.drop_first(), domain, path, name);
    }
}

/// In a key-unique jar, a matching position is what `find_cookie` finds.
pub proof fn lemma_find_cookie_at(
    s: Seq<CookieModel>,
    domain: Seq<char>,
    path: Seq<char>,
    name: Seq<char>,
    at: int,
)
    requires
        forall|i: int, j: int|
            0 <= i < j < s.len() ==> !same_key(#[trigger] s[i], #[trigger] s[j]),
        0 <= at < s.len(),
        has_key(s[at], domain, path, name),
    ensures
        find_cookie(s, domain, path, name) == Some(s[at]),
    decreases s.len(),
{
    if at > 0 {
        assert(!same_key(s[0], s[at]));
        lemma_find_cookie_at(s.drop_first(), domain, path, name, at - 1);
    }
}

/// Exec check of `plain` on a string field.
pub fn field_ok(s: &String) -> (r: bool)
    ensures
        r == plain(s@),
{
    let sl = s.as_str();
    let n = sl.unicode_len();
    let mut i: usize = 0;
    while i < n
        invariant
            0 <= i <= n,
            n == sl@.len(),
            sl@ == s@,
            forall|k: int| 0 <= k < i ==> s@[k] != '"' && s@[k] != '\n',
        decreases n - i,
    {
        let c = sl.get_char(i);
        if c == '"' || c == '\n' {
            return false;
        }
        i += 1;
    }
    true
}

/// The durable cookie store: the jar, and the path of its on-disk
/// snapshot. The jar in memory is the source of truth; the file only
/// holds what the last save wrote.
#[derive(Debug)]
pub struct Store {
    pub path: String,
    pub jar: Jar,
}

impl Store {
    pub open spec fn wf(&self) -> bool {
        self.jar.wf()
    }

    /// Open a store: an absent file (`contents == None`) yields an empty
    /// jar; a present snapshot is parsed, and a malformed or key-repeating
    /// one is refused as `StoreCorrupt`.
    pub fn new(path: String, contents: Option<&str>) -> (r: Result<Store, Error>)
        ensures
            match r {
                Ok(st) => st.wf() && st.path@ == path@ && match contents {
                    None => st.jar@ == Seq::<CookieModel>::empty(),
                    Some(text) => sp_jar(text@) == Some(st.jar@),
                },
                Err(e) => e == Error::StoreCorrupt && (contents matches Some(text) && (sp_jar(
                    text@,
                ) is None || !key_unique(sp_jar(text@)->Some_0))),
            },
    {
        match contents {
            None => Ok(Store { path, jar: Jar::new() }),
            Some(text) => match parse_jar(text) {
                Ok(jar) => Ok(Store { path, jar }),
                Err(e) => Err(e),
            },
        }
    }

    /// The snapshot text of the jar as it stands; writing it to the
    /// store's path is the caller's part.
    pub fn save(&self) -> (r: String)
        ensures
            r@ == enc_jar(self.jar@),
    {
        crate::codec::encode_jar_text(&self.jar)
    }
}

/// Saving a jar and reading the text back yields the same cookies: the
/// snapshot loses nothing.
pub proof fn lemma_store_round_trip(st: Store)
    requires
        st.wf(),
    ensures
        sp_jar(enc_jar(st.jar@)) == Some(st.jar@),
{
    crate::codec::lemma_jar_round_trip(st.jar@);
}

} // verus!
