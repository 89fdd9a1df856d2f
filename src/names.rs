//! Filenames for saved pages: a filesystem-safe base derived from the URL,
//! made unique within one run by a numeric suffix.

use vstd::prelude::*;
use crate::text::{chars_of, string_of, views};

verus! {

/// Whether `c` is alphanumeric by Unicode's rules.
pub uninterp spec fn alphanumeric(c: char) -> bool;

/// What the URL parser reads from `s`: `None` where `s` is no URL, else the
/// host (if the URL has one) and the path.
pub uninterp spec fn url_host_path(s: Seq<char>) -> Option<(Option<Seq<char>>, Seq<char>)>;

/// Relies on char::is_alphanumeric: whether `c` has the Alphabetic or Numeric property.
#[verifier::external_body]
fn is_alphanumeric(c: char) -> (r: bool)
    ensures
        r == alphanumeric(c),
{
    c.is_alphanumeric()
}

/// Relies on url::Url::parse, and on `host_str` and `path` of the URL it returns.
#[verifier::external_body]
fn parse_host_path(s: &str) -> (r: Option<(Option<String>, String)>)
    ensures
        url_host_path(s@) == parts_view(r),
{
    url::Url::parse(s).ok().map(|u| (u.host_str().map(|h| h.to_string()), u.path().to_string()))
}

/// An ASCII letter or digit.
pub open spec fn ascii_alphanumeric(c: char) -> bool {
    'a' <= c <= 'z' || 'A' <= c <= 'Z' || '0' <= c <= '9'
}

/// Whether `c` may stand in a filename as it is: an ASCII letter or digit,
/// `_`, `-` or `.`, or an alphanumeric character beyond ASCII.
pub open spec fn keeps_char(c: char) -> bool {
    if (c as u32) < 128 {
        ascii_alphanumeric(c) || c == '_' || c == '-' || c == '.'
    } else {
        alphanumeric(c)
    }
}

/// The character that stands for `c` in a filename: `c` itself where it may
/// stand as it is, and `_` otherwise (a `/` included).
pub open spec fn safe_char(c: char) -> char {
    if keeps_char(c) {
        c
    } else {
        '_'
    }
}

/// Host and path joined; a URL without a host has `unknown` for it, and
/// text that is no URL stands for `http://example.com`.
pub open spec fn joined_parts(parts: Option<(Option<Seq<char>>, Seq<char>)>) -> Seq<char> {
    match parts {
        Some((Some(h), p)) => h + p,
        Some((None, p)) => "unknown"@ + p,
        None => "example.com"@ + "/"@,
    }
}

/// Host and path of `url` joined, as [`joined_parts`] says.
pub open spec fn host_and_path(url: Seq<char>) -> Seq<char> {
    joined_parts(url_host_path(url))
}

pub open spec fn parts_view(parts: Option<(Option<String>, String)>) -> Option<(Option<Seq<char>>, Seq<char>)> {
    match parts {
        None => None,
        Some((h, p)) => Some((
            match h {
                Some(h) => Some(h@),
                None => None,
            },
            p@,
        )),
    }
}

/// The filename that `url` gets when no earlier name is in the way.
pub open spec fn base_name(url: Seq<char>) -> Seq<char> {
    host_and_path(url).map_values(|c: char| safe_char(c))
}

/// The decimal digit for `d`, where `d < 10`.
pub open spec fn digit_char(d: nat) -> char {
    if d == 0 { '0' }
    else if d == 1 { '1' }
    else if d == 2 { '2' }
    else if d == 3 { '3' }
    else if d == 4 { '4' }
    else if d == 5 { '5' }
    else if d == 6 { '6' }
    else if d == 7 { '7' }
    else if d == 8 { '8' }
    else { '9' }
}

/// The decimal notation of `n`, without leading zeros.
pub open spec fn decimal(n: nat) -> Seq<char>
    decreases n,
{
    if n < 10 {
        seq![digit_char(n)]
    } else {
        decimal(n / 10) + seq![digit_char(n % 10)]
    }
}

/// The `k`-th name tried for `base`: `base` itself, then `base_2`, `base_3`, ...
pub open spec fn candidate(base: Seq<char>, k: nat) -> Seq<char> {
    if k <= 1 {
        base
    } else {
        base + seq!['_'] + decimal(k)
    }
}

/// `k` is the first position whose candidate for `base` is not in `names`.
pub open spec fn first_free(base: Seq<char>, names: Set<Seq<char>>, k: nat) -> bool {
    &&& 1 <= k
    &&& !names.contains(candidate(base, k))
    &&& forall|j: nat| 1 <= j < k ==> names.contains(#[trigger] candidate(base, j))
}

/// The name that `url` is given against the names in `names`.
pub open spec fn assigned_name(url: Seq<char>, names: Set<Seq<char>>) -> Seq<char> {
    candidate(base_name(url), choose|k: nat| first_free(base_name(url), names, k))
}

proof fn lemma_decimal_len(n: nat)
    ensures
        decimal(n).len() >= 1,
    decreases n,
{
    if n >= 10 {
        lemma_decimal_len(n / 10);
    }
}

proof fn lemma_decimal_injective(a: nat, b: nat)
    requires
        decimal(a) == decimal(b),
    ensures
        a == b,
    decreases a + b,
{
    if a >= 10 {
        lemma_decimal_len(a / 10);
    }
    if b >= 10 {
        lemma_decimal_len(b / 10);
    }
    if a < 10 && b < 10 {
        assert(decimal(a)[0] == digit_char(a));
        assert(decimal(b)[0] == digit_char(b));
        assert(digit_char(a) == digit_char(b));
    } else if a >= 10 && b >= 10 {
        let da = decimal(a);
        let db = decimal(b);
        assert(da.last() == db.last());
        assert(da.drop_last() =~= decimal(a / 10));
        assert(db.drop_last() =~= decimal(b / 10));
        lemma_decimal_injective(a / 10, b / 10);
    } else if a < 10 {
        assert(decimal(a).len() == 1);
        assert(decimal(b) == decimal(b / 10) + seq![digit_char(b % 10)]);
        assert(decimal(b).len() >= 2);
    } else {
        assert(decimal(b).len() == 1);
        assert(decimal(a) == decimal(a / 10) + seq![digit_char(a % 10)]);
        assert(decimal(a).len() >= 2);
    }
}

/// Different positions give different names.
pub proof fn lemma_candidate_injective(base: Seq<char>, i: nat, j: nat)
    requires
        1 <= i,
        1 <= j,
        candidate(base, i) == candidate(base, j),
    ensures
        i == j,
{
    if i >= 2 {
        lemma_decimal_len(i);
    }
    if j >= 2 {
        lemma_decimal_len(j);
    }
    if i >= 2 && j >= 2 {
        let n = base.len() + 1;
        assert(candidate(base, i).subrange(n as int, candidate(base, i).len() as int) =~= decimal(i));
        assert(candidate(base, j).subrange(n as int, candidate(base, j).len() as int) =~= decimal(j));
        lemma_decimal_injective(i, j);
    } else if i >= 2 || j >= 2 {
        assert(candidate(base, i).len() != candidate(base, j).len());
    }
}

/// A finite set that holds the first `k` candidates has at least `k` members.
proof fn lemma_candidates_fill(base: Seq<char>, names: Set<Seq<char>>, k: nat)
    requires
        names.finite(),
        forall|j: nat| 1 <= j <= k ==> names.contains(#[trigger] candidate(base, j)),
    ensures
        k <= names.len(),
    decreases k,
{
    if k > 0 {
        let rest = names.remove(candidate(base, k));
        assert forall|j: nat| 1 <= j <= k - 1 implies rest.contains(#[trigger] candidate(base, j)) by {
            if candidate(base, j) == candidate(base, k) {
                lemma_candidate_injective(base, j, k);
            }
        }
        lemma_candidates_fill(base, rest, (k - 1) as nat);
    }
}

/// The names that the URLs in `urls` are given, one after another, each
/// claimed before the next is chosen.
pub open spec fn assign_all(names: Set<Seq<char>>, urls: Seq<Seq<char>>) -> Seq<Seq<char>>
    decreases urls.len(),
{
    if urls.len() == 0 {
        seq![]
    } else {
        let r = assigned_name(urls[0], names);
        seq![r] + assign_all(names.insert(r), urls.drop_first())
    }
}

proof fn lemma_first_free_unique(base: Seq<char>, names: Set<Seq<char>>, a: nat, b: nat)
    requires
        first_free(base, names, a),
        first_free(base, names, b),
    ensures
        a == b,
{
    if a < b {
        assert(names.contains(candidate(base, a)));
    } else if b < a {
        assert(names.contains(candidate(base, b)));
    }
}

proof fn lemma_first_free_from(base: Seq<char>, names: Set<Seq<char>>, k: nat)
    requires
        names.finite(),
        1 <= k <= names.len() + 1,
        forall|j: nat| 1 <= j < k ==> names.contains(#[trigger] candidate(base, j)),
    ensures
        exists|c: nat| first_free(base, names, c),
    decreases names.len() + 1 - k,
{
    if !names.contains(candidate(base, k)) {
        assert(first_free(base, names, k));
    } else {
        assert forall|j: nat| 1 <= j <= k implies names.contains(#[trigger] candidate(base, j)) by {
            if j == k {
            }
        }
        lemma_candidates_fill(base, names, k);
        lemma_first_free_from(base, names, k + 1);
    }
}

/// Every finite set of names leaves a first free candidate.
pub proof fn lemma_first_free_exists(base: Seq<char>, names: Set<Seq<char>>)
    requires
        names.finite(),
    ensures
        exists|c: nat| first_free(base, names, c),
{
    lemma_first_free_from(base, names, 1);
}

proof fn lemma_assign_all_from(base: Seq<char>, names: Set<Seq<char>>, urls: Seq<Seq<char>>, m: nat)
    requires
        forall|i: int| 0 <= i < urls.len() ==> base_name(#[trigger] urls[i]) == base,
        forall|k: nat| 1 <= k ==> (names.contains(#[trigger] candidate(base, k)) <==> k <= m),
    ensures
        assign_all(names, urls).len() == urls.len(),
        forall|i: int| 0 <= i < urls.len() ==> #[trigger] assign_all(names, urls)[i] == candidate(base, (m + 1 + i) as nat),
    decreases urls.len(),
{
    if urls.len() > 0 {
        assert(base_name(urls[0]) == base);
        assert(first_free(base, names, m + 1)) by {
            assert(!names.contains(candidate(base, m + 1)));
        }
        let c = choose|c: nat| first_free(base, names, c);
        lemma_first_free_unique(base, names, c, m + 1);
        let r = assigned_name(urls[0], names);
        assert(r == candidate(base, m + 1));
        let next = names.insert(r);
        assert forall|k: nat| 1 <= k implies (next.contains(#[trigger] candidate(base, k)) <==> k <= m + 1) by {
            if candidate(base, k) == r {
                lemma_candidate_injective(base, k, m + 1);
            }
        }
        let rest = urls.drop_first();
        assert forall|i: int| 0 <= i < rest.len() implies base_name(#[trigger] rest[i]) == base by {
            assert(rest[i] == urls[i + 1]);
        }
        lemma_assign_all_from(base, next, rest, m + 1);
        let all = assign_all(names, urls);
        assert forall|i: int| 0 <= i < urls.len() implies #[trigger] all[i] == candidate(base, (m + 1 + i) as nat) by {
            if i > 0 {
                assert(all[i] == assign_all(next, rest)[i - 1]);
            }
        }
    }
}

/// URLs that share a base name, assigned one after another in a run that has
/// claimed none of that base's candidates yet, get the base, then `base_2`,
/// `base_3`, ... in call order: all distinct.
pub proof fn lemma_shared_base_names(base: Seq<char>, names: Set<Seq<char>>, urls: Seq<Seq<char>>)
    requires
        forall|i: int| 0 <= i < urls.len() ==> base_name(#[trigger] urls[i]) == base,
        forall|k: nat| 1 <= k ==> !names.contains(#[trigger] candidate(base, k)),
    ensures
        assign_all(names, urls).len() == urls.len(),
        forall|i: int| 0 <= i < urls.len() ==> #[trigger] assign_all(names, urls)[i] == candidate(base, (i + 1) as nat),
        forall|i: int, j: int| 0 <= i < j < urls.len() ==> assign_all(names, urls)[i] != assign_all(names, urls)[j],
{
    lemma_assign_all_from(base, names, urls, 0);
    assert forall|i: int, j: int| 0 <= i < j < urls.len() implies assign_all(names, urls)[i] != assign_all(names, urls)[j] by {
        if assign_all(names, urls)[i] == assign_all(names, urls)[j] {
            lemma_candidate_injective(base, (i + 1) as nat, (j + 1) as nat);
        }
    }
}

/// Assigning a URL again, against a registry that already holds the name it
/// was given, yields another name: registries do not carry over between runs.
pub proof fn lemma_rerun_differs(url: Seq<char>, names: Set<Seq<char>>)
    requires
        names.finite(),
    ensures
        assigned_name(url, names.insert(assigned_name(url, names))) != assigned_name(url, names),
{
    let first = assigned_name(url, names);
    let again = names.insert(first);
    lemma_first_free_exists(base_name(url), again);
    let c = choose|c: nat| first_free(base_name(url), again, c);
    assert(!again.contains(candidate(base_name(url), c)));
}

fn digit(d: usize) -> (c: char)
    requires
        d < 10,
    ensures
        c == digit_char(d as nat),
{
    if d == 0 { '0' }
    else if d == 1 { '1' }
    else if d == 2 { '2' }
    else if d == 3 { '3' }
    else if d == 4 { '4' }
    else if d == 5 { '5' }
    else if d == 6 { '6' }
    else if d == 7 { '7' }
    else if d == 8 { '8' }
    else { '9' }
}

fn decimal_chars(n: usize) -> (r: Vec<char>)
    ensures
        r@ == decimal(n as nat),
    decreases n,
{
    if n < 10 {
        vec![digit(n)]
    } else {
        let mut v = decimal_chars(n / 10);
        v.push(digit(n % 10));
        v
    }
}

fn candidate_string(base: &Vec<char>, k: usize) -> (r: String)
    requires
        k >= 1,
    ensures
        r@ == candidate(base@, k as nat),
{
    if k == 1 {
        string_of(base)
    } else {
        let mut v = base.clone();
        v.push('_');
        let mut digits = decimal_chars(k);
        v.append(&mut digits);
        string_of(&v)
    }
}

/// The characters of [`base_name`] for `url`.
pub fn base_name_chars(url: &str) -> (r: Vec<char>)
    ensures
        r@ == base_name(url@),
{
    base_name_from_parts(parse_host_path(url))
}

/// The filename base for a URL with these host and path parts, where `None`
/// stands for text that is no URL.
pub fn base_name_from_parts(parts: Option<(Option<String>, String)>) -> (r: Vec<char>)
    ensures
        r@ == joined_parts(parts_view(parts)).map_values(|c: char| safe_char(c)),
{
    let ghost pv = parts_view(parts);
    let joined: Vec<char> = match parts {
        Some((Some(h), p)) => {
            let mut v = chars_of(h.as_str());
            let mut tail = chars_of(p.as_str());
            v.append(&mut tail);
            v
        },
        Some((None, p)) => {
            let mut v = chars_of("unknown");
            let mut tail = chars_of(p.as_str());
            v.append(&mut tail);
            v
        },
        None => {
            let mut v = chars_of("example.com");
            let mut tail = chars_of("/");
            v.append(&mut tail);
            v
        },
    };
    let mut out: Vec<char> = Vec::new();
    let mut i: usize = 0;
    while i < joined.len()
        invariant
            i <= joined.len(),
            joined@ == joined_parts(pv),
            out@ == joined@.take(i as int).map_values(|c: char| safe_char(c)),
        decreases joined.len() - i,
    {
        let c = joined[i];
        let keep = if (c as u32) < 128 {
            ('a' <= c && c <= 'z') || ('A' <= c && c <= 'Z') || ('0' <= c && c <= '9') || c == '_' || c == '-' || c == '.'
        } else {
            is_alphanumeric(c)
        };
        out.push(if keep { c } else { '_' });
        assert(joined@.take(i as int + 1) =~= joined@.take(i as int).push(c));
        i = i + 1;
    }
    assert(joined@.take(i as int) =~= joined@);
    out
}

/// The filenames claimed so far in one run.
pub struct NameRegistry {
    pub names: Vec<String>,
}

impl View for NameRegistry {
    type V = Set<Seq<char>>;

    open spec fn view(&self) -> Set<Seq<char>> {
        views(self.names@).to_set()
    }
}

impl NameRegistry {
    /// A registry with no names in it.
    pub fn new() -> (r: Self)
        ensures
            r@ == Set::<Seq<char>>::empty(),
            r.names.len() == 0,
    {
        let r = NameRegistry { names: Vec::new() };
        assert(r@ =~= Set::<Seq<char>>::empty());
        r
    }

    /// Whether `name` has been claimed.
    pub fn contains(&self, name: &String) -> (r: bool)
        ensures
            r == self@.contains(name@),
    {
        let mut i: usize = 0;
        while i < self.names.len()
            invariant
                i <= self.names.len(),
                forall|j: int| 0 <= j < i ==> self.names@[j]@ != name@,
            decreases self.names.len() - i,
        {
            if self.names[i] == *name {
                assert(views(self.names@)[i as int] == name@);
                return true;
            }
            i = i + 1;
        }
        proof {
            if self@.contains(name@) {
                let j = choose|j: int| 0 <= j < views(self.names@).len() && views(self.names@)[j] == name@;
                assert(self.names@[j]@ == name@);
            }
        }
        false
    }

    /// Claims the first free name for `url`: its base name where that is
    /// unclaimed, else the base with the first suffix `_2`, `_3`, ... that is.
    /// The name is claimed in the same call that chooses it.
    pub fn assign(&mut self, url: &str) -> (r: String)
        requires
            old(self).names.len() < usize::MAX,
        ensures
            first_free(base_name(url@), old(self)@, choose|k: nat| first_free(base_name(url@), old(self)@, k)),
            r@ == assigned_name(url@, old(self)@),
            forall|k: nat| #[trigger] first_free(base_name(url@), old(self)@, k) ==> r@ == candidate(base_name(url@), k),
            !old(self)@.contains(r@),
            final(self)@ == old(self)@.insert(r@),
            final(self).names@ == old(self).names@.push(r),
    {
        let base = base_name_chars(url);
        let mut k: usize = 1;
        let mut name = candidate_string(&base, k);
        proof {
            views(self.names@).lemma_cardinality_of_set();
        }
        while self.contains(&name)
            invariant
                1 <= k <= self.names.len() + 1,
                self.names.len() < usize::MAX,
                base@ == base_name(url@),
                name@ == candidate(base@, k as nat),
                views(self.names@).to_set().len() <= self.names.len(),
                forall|j: nat| 1 <= j < k ==> self@.contains(#[trigger] candidate(base@, j)),
            decreases self.names.len() + 1 - k,
        {
            proof {
                assert forall|j: nat| 1 <= j <= k implies self@.contains(#[trigger] candidate(base@, j)) by {
                    if j == k {
                        assert(candidate(base@, j) == name@);
                    }
                }
                lemma_candidates_fill(base@, self@, k as nat);
            }
            k = k + 1;
            name = candidate_string(&base, k);
        }
        proof {
            assert(first_free(base@, self@, k as nat));
            let c = choose|c: nat| first_free(base@, self@, c);
            if c < k {
                assert(self@.contains(candidate(base@, c)));
            } else if c > k {
                assert(self@.contains(candidate(base@, k as nat)));
            }
            assert forall|j: nat| #[trigger] first_free(base@, self@, j) implies name@ == candidate(base@, j) by {
                lemma_first_free_unique(base@, self@, j, k as nat);
            }
        }
        let ghost before = self.names@;
        self.names.push(name.clone());
        proof {
            let now = views(self.names@);
            let was = views(before);
            assert(now =~= was.push(name@));
            assert forall|x: Seq<char>| #[trigger] self@.contains(x) <==> was.to_set().insert(name@).contains(x) by {
                if self@.contains(x) {
                    let j = choose|j: int| 0 <= j < now.len() && now[j] == x;
                    if j < was.len() {
                        assert(was[j] == x);
                    }
                }
                if was.to_set().contains(x) {
                    let j = choose|j: int| 0 <= j < was.len() && was[j] == x;
                    assert(now[j] == x);
                }
                if x == name@ {
                    assert(now[now.len() - 1] == x);
                }
            }
            assert(self@ =~= was.to_set().insert(name@));
        }
        name
    }
}

/// Derives the filename for `url` and claims it in `used_names`.
pub fn url_to_filename(url: &str, used_names: &mut NameRegistry) -> (r: String)
    requires
        old(used_names).names.len() < usize::MAX,
    ensures
        r@ == assigned_name(url@, old(used_names)@),
        forall|k: nat| #[trigger] first_free(base_name(url@), old(used_names)@, k) ==> r@ == candidate(base_name(url@), k),
        !old(used_names)@.contains(r@),
        final(used_names).names@ == old(used_names).names@.push(r),
        final(used_names)@ == old(used_names)@.insert(r@),
{
    used_names.assign(url)
}

} // verus!
