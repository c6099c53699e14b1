//! The registry index held in memory: package names mapped to their
//! published versions in publication order, plus the path and URL
//! arithmetic of the registry layout.

use vstd::prelude::*;

verus! {

use vstd::string::StrSliceExecFns;
use vstd::string::StringExecFns;
use crate::strutil::str_eq;

/// Base location the registry serves package archives from.
pub open spec fn base_url_spec() -> Seq<char> {
    "https://moonbitlang-mooncakes.s3.us-west-2.amazonaws.com/user"@
}

/// The in-memory registry index: each package name with its versions,
/// oldest first; the last entry of a list is the latest version.
#[derive(Debug)]
pub struct MooncakesDB {
    db: Vec<(String, Vec<String>)>,
}

/// Keyword that marks a registry record as a test fixture, to be left
/// out of the index.
pub open spec fn test_fixture_keyword() -> Seq<char> {
    "mooncakes-test"@
}

/// Whether a record's keyword list marks it as a test fixture.
pub open spec fn has_test_keyword(keywords: Option<Vec<String>>) -> bool {
    match keywords {
        Some(ks) => exists|i: int|
            0 <= i < ks@.len() && (#[trigger] ks@[i]@) == test_fixture_keyword(),
        None => false,
    }
}

impl MooncakesDB {
    pub closed spec fn entries(&self) -> Seq<(String, Vec<String>)> {
        self.db@
    }

    /// Well-formed: package names are distinct and no version list is empty.
    pub closed spec fn wf(&self) -> bool {
        &&& forall|i: int, j: int|
            0 <= i < j < self.entries().len() ==> (#[trigger] self.entries()[i].0@) != (
            #[trigger] self.entries()[j].0@)
        &&& forall|i: int|
            0 <= i < self.entries().len() ==> (#[trigger] self.entries()[i].1@.len()) > 0
    }

    /// Whether a package of this name is in the index.
    pub closed spec fn has_pkg(&self, name: Seq<char>) -> bool {
        exists|i: int| 0 <= i < self.entries().len() && (#[trigger] self.entries()[i].0@) == name
    }

    /// The versions of a package, oldest first.
    pub closed spec fn versions_of(&self, name: Seq<char>) -> Seq<Seq<char>> {
        let i = choose|i: int|
            0 <= i < self.entries().len() && (#[trigger] self.entries()[i].0@) == name;
        self.entries()[i].1.deep_view()
    }

    /// The latest version of a package: the last of its version list.
    pub open spec fn latest_of(&self, name: Seq<char>) -> Seq<char> {
        self.versions_of(name).last()
    }

    pub fn new() -> (r: Self)
        ensures
            r.wf(),
            forall|n: Seq<char>| !r.has_pkg(n),
    {
        MooncakesDB { db: Vec::new() }
    }

    /// The latest version of `name`, or `None` for a package the index
    /// does not know.
    pub fn get_latest_version(&self, name: &str) -> (r: Option<String>)
        requires
            self.wf(),
        ensures
            match r {
                Some(v) => self.has_pkg(name@) && v@ == self.latest_of(name@),
                None => !self.has_pkg(name@),
            },
    {
        let n = self.db.len();
        let mut i: usize = 0;
        while i < n
            invariant
                0 <= i <= n,
                n == self.entries().len(),
                self.wf(),
                forall|k: int| 0 <= k < i ==> (#[trigger] self.entries()[k].0@) != name@,
            decreases n - i,
        {
            if str_eq(self.db[i].0.as_str(), name) {
                let vs = &self.db[i].1;
                let v = vs[vs.len() - 1].clone();
                proof {
                    let ii = i as int;
                    assert(self.has_pkg(name@));
                    let c = choose|c: int|
                        0 <= c < self.entries().len() && (#[trigger] self.entries()[c].0@)
                            == name@;
                    // Names are distinct, so the chosen entry is the one found.
                    assert(c == ii);
                    assert(v@ == self.entries()[ii].1.deep_view().last());
                }
                return Some(v);
            }
            i = i + 1;
        }
        None
    }

    /// Fold one registry record into the index: append its version to the
    /// package's list, unless its keywords mark it as a test fixture.
    pub fn add_record(&mut self, name: &str, version: String, keywords: &Option<Vec<String>>)
        requires
            old(self).wf(),
        ensures
            final(self).wf(),
            has_test_keyword(*keywords) ==> *final(self) == *old(self),
            !has_test_keyword(*keywords) ==> db_extended(*old(self), name@, version@, *final(self)),
    {
        let skip = match keywords {
            Some(ks) => {
                let mut found = false;
                let m = ks.len();
                let mut k: usize = 0;
                while k < m
                    invariant
                        0 <= k <= m,
                        m == ks@.len(),
                        found == exists|t: int|
                            0 <= t < k && (#[trigger] ks@[t]@) == test_fixture_keyword(),
                    decreases m - k,
                {
                    if str_eq(ks[k].as_str(), "mooncakes-test") {
                        found = true;
                    }
                    k = k + 1;
                }
                found
            },
            None => false,
        };
        proof {
            assert(skip == has_test_keyword(*keywords));
        }
        if skip {
            return;
        }
        let ghost pre = *self;
        let n = self.db.len();
        let mut i: usize = 0;
        while i < n
            invariant
                0 <= i <= n,
                *self == pre,
                pre == *old(self),
                !has_test_keyword(*keywords),
                n == self.entries().len(),
                self.wf(),
                forall|k: int| 0 <= k < i ==> (#[trigger] self.entries()[k].0@) != name@,
            decreases n - i,
        {
            if str_eq(self.db[i].0.as_str(), name) {
                let mut entry = self.db.remove(i);
                entry.1.push(version);
                self.db.insert(i, entry);
                proof {
                    let ii = i as int;
                    assert(self.entries() =~= pre.entries().update(ii, self.entries()[ii]));
                    assert(self.entries()[ii].0@ == name@);
                    assert(self.entries()[ii].1.deep_view() =~= pre.entries()[ii].1.deep_view()
                        .push(version@));
                    lemma_db_update(pre, *self, ii, name@, version@);
                }
                return;
            }
            i = i + 1;
        }
        let mut vs: Vec<String> = Vec::new();
        vs.push(version);
        let key = name.to_owned();
        self.db.push((key, vs));
        proof {
            let ii = n as int;
            assert(self.entries() =~= pre.entries().push(self.entries()[ii]));
            assert(self.entries()[ii].0@ == name@);
            assert(self.entries()[ii].1.deep_view() =~= seq![version@]);
            lemma_db_append(pre, *self, name@, version@);
        }
    }
}

/// How one record extends the index: the named package gains the version
/// at the end of its list, every other package is untouched.
pub open spec fn db_extended(
    pre: MooncakesDB,
    name: Seq<char>,
    version: Seq<char>,
    post: MooncakesDB,
) -> bool {
    &&& post.has_pkg(name)
    &&& post.versions_of(name) == (if pre.has_pkg(name) {
        pre.versions_of(name)
    } else {
        Seq::<Seq<char>>::empty()
    }).push(version)
    &&& forall|n: Seq<char>| n != name ==> (post.has_pkg(n) <==> pre.has_pkg(n))
    &&& forall|n: Seq<char>|
        n != name && pre.has_pkg(n) ==> post.versions_of(n) == pre.versions_of(n)
}

proof fn lemma_db_update(
    pre: MooncakesDB,
    post: MooncakesDB,
    i: int,
    name: Seq<char>,
    version: Seq<char>,
)
    requires
        pre.wf(),
        0 <= i < pre.entries().len(),
        pre.entries()[i].0@ == name,
        post.entries().len() == pre.entries().len(),
        post.entries()[i].0@ == name,
        post.entries()[i].1.deep_view() == pre.entries()[i].1.deep_view().push(version),
        forall|k: int|
            0 <= k < pre.entries().len() && k != i ==> #[trigger] post.entries()[k]
                == pre.entries()[k],
    ensures
        post.wf(),
        db_extended(pre, name, version, post),
{
    let i0 = i;
    assert forall|k: int| 0 <= k < post.entries().len() implies (#[trigger] post.entries()[k].0@)
        == pre.entries()[k].0@ by {
        if k != i0 {
            assert(post.entries()[k] == pre.entries()[k]);
        }
    }
    assert forall|k: int| 0 <= k < post.entries().len() implies (
    #[trigger] post.entries()[k].1@.len()) > 0 by {
        if k == i0 {
            assert(post.entries()[k].1.deep_view().len() == pre.entries()[k].1.deep_view().len()
                + 1);
        } else {
            assert(post.entries()[k] == pre.entries()[k]);
        }
    }
    assert(post.wf());
    assert forall|n: Seq<char>| #[trigger] post.has_pkg(n) implies pre.has_pkg(n) by {
        let k = choose|k: int|
            0 <= k < post.entries().len() && (#[trigger] post.entries()[k].0@) == n;
        assert(pre.entries()[k].0@ == n);
    }
    assert forall|n: Seq<char>| #[trigger] pre.has_pkg(n) implies post.has_pkg(n) by {
        let k = choose|k: int|
            0 <= k < pre.entries().len() && (#[trigger] pre.entries()[k].0@) == n;
        assert(post.entries()[k].0@ == n);
    }
    assert(post.has_pkg(name)) by {
        assert(post.entries()[i].0@ == name);
    }
    assert(pre.has_pkg(name)) by {
        assert(pre.entries()[i].0@ == name);
    }
    assert(post.versions_of(name) == pre.versions_of(name).push(version)) by {
        let c = choose|c: int|
            0 <= c < post.entries().len() && (#[trigger] post.entries()[c].0@) == name;
        assert(c == i);
        let cp = choose|cp: int|
            0 <= cp < pre.entries().len() && (#[trigger] pre.entries()[cp].0@) == name;
        assert(cp == i);
    }
    assert forall|n: Seq<char>| n != name && #[trigger] pre.has_pkg(n) implies post.versions_of(n)
        == pre.versions_of(n) by {
        let c = choose|c: int|
            0 <= c < post.entries().len() && (#[trigger] post.entries()[c].0@) == n;
        let cp = choose|cp: int|
            0 <= cp < pre.entries().len() && (#[trigger] pre.entries()[cp].0@) == n;
        assert(c != i);
        assert(pre.entries()[c].0@ == n);
        assert(cp == c);
    }
}

proof fn lemma_db_append(pre: MooncakesDB, post: MooncakesDB, name: Seq<char>, version: Seq<char>)
    requires
        pre.wf(),
        !pre.has_pkg(name),
        post.entries().len() == pre.entries().len() + 1,
        post.entries()[pre.entries().len() as int].0@ == name,
        post.entries()[pre.entries().len() as int].1.deep_view() == seq![version],
        forall|k: int|
            0 <= k < pre.entries().len() ==> #[trigger] post.entries()[k] == pre.entries()[k],
    ensures
        post.wf(),
        db_extended(pre, name, version, post),
{
    let n = pre.entries().len() as int;
    assert forall|i: int, j: int| 0 <= i < j < post.entries().len() implies (
    #[trigger] post.entries()[i].0@) != (#[trigger] post.entries()[j].0@) by {
        if j < n {
            assert(post.entries()[i] == pre.entries()[i]);
            assert(post.entries()[j] == pre.entries()[j]);
        } else {
            // j is the new entry; its name is in no earlier entry.
            assert(post.entries()[i] == pre.entries()[i]);
            if post.entries()[i].0@ == name {
                assert(pre.has_pkg(name));
            }
        }
    }
    assert forall|k: int| 0 <= k < post.entries().len() implies (
    #[trigger] post.entries()[k].1@.len()) > 0 by {
        if k < n {
            assert(post.entries()[k] == pre.entries()[k]);
        } else {
            assert(post.entries()[k].1.deep_view().len() == 1);
        }
    }
    assert(post.wf());
    assert(post.has_pkg(name)) by {
        assert(post.entries()[n].0@ == name);
    }
    assert(post.versions_of(name) == seq![version]) by {
        let c = choose|c: int|
            0 <= c < post.entries().len() && (#[trigger] post.entries()[c].0@) == name;
        if c < n {
            assert(pre.entries()[c].0@ == name);
            assert(pre.has_pkg(name));
        }
        assert(c == n);
    }
    assert(Seq::<Seq<char>>::empty().push(version) =~= seq![version]);
    assert forall|m: Seq<char>| m != name implies (post.has_pkg(m) <==> pre.has_pkg(m)) by {
        if post.has_pkg(m) {
            let c = choose|c: int|
                0 <= c < post.entries().len() && (#[trigger] post.entries()[c].0@) == m;
            if c < n {
                assert(pre.entries()[c].0@ == m);
                assert(pre.has_pkg(m));
            }
        }
        if pre.has_pkg(m) {
            let c = choose|c: int|
                0 <= c < pre.entries().len() && (#[trigger] pre.entries()[c].0@) == m;
            assert(post.entries()[c].0@ == m);
            assert(post.has_pkg(m));
        }
    }
    assert forall|m: Seq<char>| m != name && #[trigger] pre.has_pkg(m) implies post.versions_of(m)
        == pre.versions_of(m) by {
        let c = choose|c: int|
            0 <= c < post.entries().len() && (#[trigger] post.entries()[c].0@) == m;
        let cp = choose|cp: int|
            0 <= cp < pre.entries().len() && (#[trigger] pre.entries()[cp].0@) == m;
        assert(c < n);
        assert(pre.entries()[c].0@ == m);
        assert(cp == c);
    }
}

/// The registry index directory under the given home directory.
pub fn index(home: &str) -> (r: String)
    ensures
        r@ == home@ + "/registry/index"@,
{
    let mut r = home.to_owned();
    r.append("/registry/index");
    r
}

/// Index of the last `'.'` in `s`, or `-1` if there is none.
pub open spec fn last_dot(s: Seq<char>) -> int
    decreases s.len(),
{
    if s.len() == 0 {
        -1
    } else if s.last() == '.' {
        s.len() - 1
    } else {
        last_dot(s.drop_last())
    }
}

pub proof fn lemma_last_dot_at(s: Seq<char>, j: int)
    requires
        -1 <= j < s.len(),
        j >= 0 ==> s[j] == '.',
        forall|k: int| j < k < s.len() ==> s[k] != '.',
    ensures
        last_dot(s) == j,
    decreases s.len(),
{
    if s.len() > 0 && s.last() != '.' {
        lemma_last_dot_at(s.drop_last(), j);
    }
}

/// A file name without its extension: cut at the last dot, unless the
/// only dot is the leading character (or there is none).
pub open spec fn stem_spec(s: Seq<char>) -> Seq<char> {
    let j = last_dot(s);
    if j >= 1 {
        s.subrange(0, j)
    } else {
        s
    }
}

/// The index file of one package under `base`:
/// `{base}/user/{user}/{pkg}.index`, where an extension of `pkg` is
/// first cut away as `Path::with_extension` would.
pub fn index_of_pkg(base: &str, user: &str, pkg: &str) -> (r: String)
    ensures
        r@ == base@ + "/user/"@ + user@ + "/"@ + stem_spec(pkg@) + ".index"@,
{
    let n = pkg.unicode_len();
    let mut j: usize = n;
    while j > 0 && pkg.get_char(j - 1) != '.'
        invariant
            0 <= j <= n,
            n == pkg@.len(),
            forall|k: int| j <= k < n ==> pkg@[k] != '.',
        decreases j,
    {
        j = j - 1;
    }
    // Here j is one past the last dot, or 0 when there is none.
    let stem: &str = if j >= 2 {
        proof {
            lemma_last_dot_at(pkg@, j - 1);
        }
        pkg.substring_char(0, j - 1)
    } else {
        proof {
            if j == 1 {
                lemma_last_dot_at(pkg@, 0);
            } else if n > 0 {
                lemma_last_dot_at(pkg@, -1);
            }
            assert(stem_spec(pkg@) =~= pkg@);
        }
        pkg
    };
    let mut r = base.to_owned();
    r.append("/user/");
    r.append(user);
    r.append("/");
    r.append(stem);
    r.append(".index");
    r
}

/// Names the percent-encoding that `form_urlencoded` applies to a string
/// appended as a bare key: a pure function of the characters alone.
pub uninterp spec fn form_urlencoded_of(s: Seq<char>) -> Seq<char>;

/// Whether `c` is left unchanged by the form-urlencoded byte serializer:
/// ASCII alphanumerics and `*-._`.
pub open spec fn urlencoded_unchanged_char(c: char) -> bool {
    ||| c == '*'
    ||| c == '-'
    ||| c == '.'
    ||| c == '_'
    ||| ('0' <= c && c <= '9')
    ||| ('A' <= c && c <= 'Z')
    ||| ('a' <= c && c <= 'z')
}

/// Relies on `form_urlencoded::Serializer::append_key_only` and `finish`:
/// with the default encoding they percent-encode the UTF-8 bytes of the
/// input, a deterministic function of the input string; bytes in
/// `[0-9A-Za-z*\-._]` pass through unchanged.
#[verifier::external_body]
fn urlencode(s: &str) -> (r: String)
    ensures
        r@ == form_urlencoded_of(s@),
        (forall|k: int| 0 <= k < s@.len() ==> urlencoded_unchanged_char(s@[k]))
            ==> r@ == s@,
{
    form_urlencoded::Serializer::new(String::new())
        .append_key_only(s)
        .finish()
}

/// The archive URL of one package version:
/// `{base}/{name}/{url-encoded version}.zip`.
pub fn download_url(name: &str, version: &str) -> (r: String)
    ensures
        r@ == base_url_spec() + "/"@ + name@ + "/"@ + form_urlencoded_of(version@) + ".zip"@,
{
    let mut r = String::from_str("https://moonbitlang-mooncakes.s3.us-west-2.amazonaws.com/user");
    r.append("/");
    r.append(name);
    r.append("/");
    let enc = urlencode(version);
    r.append(enc.as_str());
    r.append(".zip");
    r
}

/// Where the downloaded archive of one version is placed under `dst`:
/// `{dst}/{version}.zip`.
pub fn zip_path(dst: &str, version: &str) -> (r: String)
    ensures
        r@ == dst@ + "/"@ + version@ + ".zip"@,
{
    let mut r = dst.to_owned();
    r.append("/");
    r.append(version);
    r.append(".zip");
    r
}

} // verus!
