//! The source resolver: turns the input lines naming packages and git
//! repositories into the normalized, index-tagged source list that one
//! run works through.

use vstd::prelude::*;

verus! {

use vstd::string::StrSliceExecFns;
use vstd::string::StringExecFns;
use crate::dashboard::MooncakeSource;
use crate::mooncakesio::MooncakesDB;
use crate::strutil::trim_spec;
use crate::strutil::trim_str;
use crate::strutil::split_spec;
use crate::strutil::split_str;
use crate::strutil::has_prefix;
use crate::strutil::starts_with_str;
use crate::strutil::str_eq;
use crate::strutil::strictly_sorted;
use crate::strutil::sort_dedup;
use crate::strutil::lemma_split_spec_len;
use crate::strutil::lemma_strictly_sorted_unique;

/// Why resolution failed: a `latest` selector named a package the
/// registry index does not know.
#[derive(Debug, Clone, PartialEq, Eq)]
pub enum ResolveError {
    UnknownPackage(String),
}

/// A line that contributes no source: blank, or a comment.
pub open spec fn line_skipped(l: Seq<char>) -> bool {
    let t = trim_spec(l);
    t.len() == 0 || t[0] == '#'
}

/// The trimmed, non-blank, non-comment lines of the given line list,
/// in order.
pub open spec fn kept_lines(ls: Seq<Seq<char>>) -> Seq<Seq<char>>
    decreases ls.len(),
{
    if ls.len() == 0 {
        Seq::empty()
    } else {
        let rest = kept_lines(ls.drop_first());
        if line_skipped(ls[0]) {
            rest
        } else {
            seq![trim_spec(ls[0])] + rest
        }
    }
}

pub proof fn lemma_kept_lines_append(a: Seq<Seq<char>>, b: Seq<Seq<char>>)
    ensures
        kept_lines(a + b) == kept_lines(a) + kept_lines(b),
    decreases a.len(),
{
    if a.len() == 0 {
        assert(a + b =~= b);
        assert(kept_lines(a) + kept_lines(b) =~= kept_lines(b));
    } else {
        lemma_kept_lines_append(a.drop_first(), b);
        assert((a + b).drop_first() =~= a.drop_first() + b);
        assert((a + b)[0] == a[0]);
        if line_skipped(a[0]) {
        } else {
            assert(seq![trim_spec(a[0])] + (kept_lines(a.drop_first()) + kept_lines(b)) =~= (
            seq![trim_spec(a[0])] + kept_lines(a.drop_first())) + kept_lines(b));
        }
    }
}

/// The worked lines of the whole input text: split on newlines, trimmed,
/// blanks and comments dropped.
pub open spec fn effective_lines(content: Seq<char>) -> Seq<Seq<char>> {
    kept_lines(split_spec(content, '\n'))
}

/// A kept line that names a git repository rather than a registry package.
pub open spec fn is_git_line(t: Seq<char>) -> bool {
    has_prefix(t, "https://"@)
}

/// The repository URL of a git line: its first space-separated token.
pub open spec fn git_url(t: Seq<char>) -> Seq<char> {
    split_spec(t, ' ')[0]
}

/// The revisions of a git line: the tokens after the URL, or the `HEAD`
/// sentinel when there are none.
pub open spec fn git_revs(t: Seq<char>) -> Seq<Seq<char>> {
    let p = split_spec(t, ' ');
    if p.len() == 1 {
        seq!["HEAD"@]
    } else {
        p.drop_first()
    }
}

/// The package name of a registry line: its first space-separated token.
pub open spec fn pkg_name(t: Seq<char>) -> Seq<char> {
    split_spec(t, ' ')[0]
}

/// The version selectors of a registry line: the tokens after the name,
/// or the `latest` sentinel when there are none.
pub open spec fn selectors(t: Seq<char>) -> Seq<Seq<char>> {
    let p = split_spec(t, ' ');
    if p.len() == 1 {
        seq!["latest"@]
    } else {
        p.drop_first()
    }
}

/// What one selector resolves to: itself, unless it is `latest`, which
/// resolves through the registry index.
pub open spec fn selector_resolved(db: MooncakesDB, name: Seq<char>, sel: Seq<char>) -> Seq<
    char,
> {
    if sel == "latest"@ {
        db.latest_of(name)
    } else {
        sel
    }
}

/// The selectors of a registry line, each resolved.
pub open spec fn resolved_versions(db: MooncakesDB, t: Seq<char>) -> Seq<Seq<char>> {
    selectors(t).map_values(|sel: Seq<char>| selector_resolved(db, pkg_name(t), sel))
}

/// A kept line on which resolution fails: a registry line with a `latest`
/// selector whose package the index does not know.
pub open spec fn line_fails(db: MooncakesDB, t: Seq<char>) -> bool {
    &&& !is_git_line(t)
    &&& !db.has_pkg(pkg_name(t))
    &&& selectors(t).contains("latest"@)
}

/// Some kept line of the input fails to resolve.
pub open spec fn some_line_fails(db: MooncakesDB, content: Seq<char>) -> bool {
    exists|k: int|
        0 <= k < effective_lines(content).len() && line_fails(
            db,
            #[trigger] effective_lines(content)[k],
        )
}

/// The source a kept line resolves to, standing at position `idx` of the
/// source list: a git source carries the line's URL and revisions; a
/// registry source carries the name and the strictly sorted enumeration
/// of its resolved versions.
pub open spec fn source_matches_line(
    db: MooncakesDB,
    t: Seq<char>,
    s: MooncakeSource,
    idx: int,
) -> bool {
    if is_git_line(t) {
        match s {
            MooncakeSource::Git { url, rev, index } => {
                &&& url@ == git_url(t)
                &&& rev.deep_view() == git_revs(t)
                &&& index == idx
            },
            _ => false,
        }
    } else {
        match s {
            MooncakeSource::MooncakesIO { name, version, index } => {
                &&& name@ == pkg_name(t)
                &&& strictly_sorted(version.deep_view())
                &&& (forall|x: Seq<char>|
                    version.deep_view().contains(x) <==> resolved_versions(db, t).contains(x))
                &&& index == idx
            },
            _ => false,
        }
    }
}

/// The source prepended for a `--repo-url` flag: the URL with an empty
/// revision list, at index `0`.
pub open spec fn repo_head_source(s: MooncakeSource, url: Seq<char>) -> bool {
    match s {
        MooncakeSource::Git { url: u, rev, index } => {
            &&& u@ == url
            &&& rev@.len() == 0
            &&& index == 0int
        },
        _ => false,
    }
}

/// What a successful resolution returns for the given inputs: the
/// repo-URL source first if one was given, then one source per kept
/// line, each indexed by its position.
pub open spec fn resolve_post(
    repo_url: Option<Seq<char>>,
    content: Seq<char>,
    db: MooncakesDB,
    sources: Seq<MooncakeSource>,
) -> bool {
    let lines = effective_lines(content);
    let off: int = if (repo_url is Some) {
        1
    } else {
        0
    };
    &&& sources.len() == off + lines.len()
    &&& (match repo_url {
        Some(u) => repo_head_source(sources[0], u),
        None => true,
    })
    &&& forall|i: int|
        off <= i < sources.len() ==> source_matches_line(db, lines[i - off], #[trigger] sources[i], i)
}

/// The view of an optional input string; an absent file reads as empty.
pub open spec fn content_view(content: Option<String>) -> Seq<char> {
    match content {
        Some(c) => c@,
        None => Seq::empty(),
    }
}

/// The view of the optional repo-URL flag.
pub open spec fn repo_url_view(repo_url: Option<String>) -> Option<Seq<char>> {
    match repo_url {
        Some(u) => Some(u@),
        None => None,
    }
}

/// Index stability: every resolved source carries its own position.
pub proof fn lemma_resolved_indices(
    repo_url: Option<Seq<char>>,
    content: Seq<char>,
    db: MooncakesDB,
    sources: Seq<MooncakeSource>,
)
    requires
        resolve_post(repo_url, content, db, sources),
    ensures
        forall|i: int| 0 <= i < sources.len() ==> (#[trigger] sources[i].index_spec()) == i,
{
    let off: int = if (repo_url is Some) {
        1
    } else {
        0
    };
    assert forall|i: int| 0 <= i < sources.len() implies (#[trigger] sources[i].index_spec())
        == i by {
        if i >= off {
            assert(source_matches_line(db, effective_lines(content)[i - off], sources[i], i));
        }
    }
}

/// Parse a kept git line into its URL and revision list.
#[verifier::loop_isolation(false)]
fn resolve_git_line(t: &str) -> (r: (String, Vec<String>))
    ensures
        r.0@ == git_url(t@),
        r.1.deep_view() == git_revs(t@),
{
    let parts = split_str(t, ' ');
    proof {
        lemma_split_spec_len(t@, ' ');
    }
    let url = parts[0].clone();
    let mut revs: Vec<String> = Vec::new();
    if parts.len() == 1 {
        revs.push(String::from_str("HEAD"));
        proof {
            assert(revs.deep_view() =~= seq!["HEAD"@]);
        }
    } else {
        let np = parts.len();
        let mut k: usize = 1;
        while k < np
            invariant
                1 <= k <= np,
                np == parts@.len(),
                revs.deep_view() =~= parts.deep_view().subrange(1, k as int),
            decreases np - k,
        {
            let ghost pre_dv = revs.deep_view();
            let piece = parts[k].clone();
            revs.push(piece);
            proof {
                assert(piece@ == parts.deep_view()[k as int]);
                assert(revs.deep_view() =~= pre_dv.push(piece@));
                assert(revs.deep_view() =~= parts.deep_view().subrange(1, k as int + 1));
            }
            k = k + 1;
        }
        proof {
            assert(parts.deep_view().subrange(1, np as int) =~= parts.deep_view().drop_first());
        }
    }
    (url, revs)
}

/// Resolve a kept registry line: its package name, and its version
/// selectors resolved, sorted and deduplicated. Fails exactly when a
/// `latest` selector names an unknown package.
#[verifier::loop_isolation(false)]
fn resolve_registry_line(t: &str, db: &MooncakesDB) -> (r: Result<
    (String, Vec<String>),
    ResolveError,
>)
    requires
        db.wf(),
        !is_git_line(t@),
    ensures
        match r {
            Ok(nv) => {
                &&& !line_fails(*db, t@)
                &&& nv.0@ == pkg_name(t@)
                &&& strictly_sorted(nv.1.deep_view())
                &&& (forall|x: Seq<char>|
                    nv.1.deep_view().contains(x) <==> resolved_versions(*db, t@).contains(x))
            },
            Err(e) => {
                &&& line_fails(*db, t@)
                &&& (match e {
                    ResolveError::UnknownPackage(n) => n@ == pkg_name(t@) && !db.has_pkg(n@),
                })
            },
        },
{
    let parts = split_str(t, ' ');
    proof {
        lemma_split_spec_len(t@, ' ');
    }
    let name = parts[0].clone();
    let mut sels: Vec<String> = Vec::new();
    if parts.len() == 1 {
        sels.push(String::from_str("latest"));
        proof {
            assert(sels.deep_view() =~= seq!["latest"@]);
            assert(sels.deep_view() =~= selectors(t@));
        }
    } else {
        let np = parts.len();
        let mut k: usize = 1;
        while k < np
            invariant
                1 <= k <= np,
                np == parts@.len(),
                sels.deep_view() =~= parts.deep_view().subrange(1, k as int),
            decreases np - k,
        {
            let ghost pre_dv = sels.deep_view();
            let piece = parts[k].clone();
            sels.push(piece);
            proof {
                assert(piece@ == parts.deep_view()[k as int]);
                assert(sels.deep_view() =~= pre_dv.push(piece@));
                assert(sels.deep_view() =~= parts.deep_view().subrange(1, k as int + 1));
            }
            k = k + 1;
        }
        proof {
            assert(parts.deep_view().subrange(1, np as int) =~= parts.deep_view().drop_first());
            assert(sels.deep_view() =~= selectors(t@));
        }
    }
    let ghost sv = selectors(t@);
    let ghost rv = resolved_versions(*db, t@);
    let mut resolved: Vec<String> = Vec::new();
    let ns = sels.len();
    let mut k: usize = 0;
    while k < ns
        invariant
            0 <= k <= ns,
            db.wf(),
            ns == sels@.len(),
            sels.deep_view() =~= sv,
            sv == selectors(t@),
            rv == resolved_versions(*db, t@),
            name@ == pkg_name(t@),
            rv.len() == sv.len(),
            resolved.deep_view().len() == k,
            forall|j: int| 0 <= j < k ==> (#[trigger] resolved.deep_view()[j]) == rv[j],
            forall|j: int| 0 <= j < k && sv[j] == "latest"@ ==> db.has_pkg(pkg_name(t@)),
        decreases ns - k,
    {
        let sel = &sels[k];
        if str_eq(sel.as_str(), "latest") {
            match db.get_latest_version(name.as_str()) {
                Some(v) => {
                    proof {
                        assert(rv[k as int] == selector_resolved(*db, pkg_name(t@), sv[k as int]));
                        assert(sv[k as int] == "latest"@);
                    }
                    let ghost pre_dv = resolved.deep_view();
                    resolved.push(v);
                    proof {
                        assert(resolved.deep_view() =~= pre_dv.push(v@));
                    }
                },
                None => {
                    proof {
                        assert(sv[k as int] == "latest"@);
                        assert(sv.contains("latest"@));
                    }
                    return Err(ResolveError::UnknownPackage(name));
                },
            }
        } else {
            proof {
                assert(rv[k as int] == selector_resolved(*db, pkg_name(t@), sv[k as int]));
                assert(sv[k as int] != "latest"@);
            }
            let ghost pre_dv = resolved.deep_view();
            let piece = sel.clone();
            resolved.push(piece);
            proof {
                assert(resolved.deep_view() =~= pre_dv.push(piece@));
            }
        }
        k = k + 1;
    }
    proof {
        assert(resolved.deep_view() =~= rv);
        if selectors(t@).contains("latest"@) {
            let j = choose|j: int| 0 <= j < sv.len() && sv[j] == "latest"@;
            assert(db.has_pkg(pkg_name(t@)));
        }
    }
    let version = sort_dedup(&resolved);
    Ok((name, version))
}

/// The package name of the first kept line that fails to resolve.
pub open spec fn first_failing_pkg(db: MooncakesDB, content: Seq<char>, n: Seq<char>) -> bool {
    exists|k: int|
        {
            &&& 0 <= k < effective_lines(content).len()
            &&& line_fails(db, #[trigger] effective_lines(content)[k])
            &&& n == pkg_name(effective_lines(content)[k])
            &&& forall|j: int|
                0 <= j < k ==> !line_fails(db, #[trigger] effective_lines(content)[j])
        }
}

/// Resolve the run's inputs into the indexed source list.
///
/// A given repo URL is prepended as a git source with no revisions; each
/// kept line of the input text follows, as a git source or a registry
/// source with its versions resolved, sorted and deduplicated. Fails
/// exactly when some line's `latest` selector names an unknown package,
/// with the name from the first such line.
#[verifier::loop_isolation(false)]
pub fn get_mooncake_sources(
    repo_url: &Option<String>,
    content: &Option<String>,
    db: &MooncakesDB,
) -> (r: Result<Vec<MooncakeSource>, ResolveError>)
    requires
        db.wf(),
    ensures
        match r {
            Ok(sources) => {
                &&& resolve_post(
                    repo_url_view(*repo_url),
                    content_view(*content),
                    *db,
                    sources@,
                )
                &&& !some_line_fails(*db, content_view(*content))
            },
            Err(e) => {
                &&& some_line_fails(*db, content_view(*content))
                &&& (match e {
                    ResolveError::UnknownPackage(n) => {
                        &&& !db.has_pkg(n@)
                        &&& first_failing_pkg(*db, content_view(*content), n@)
                    },
                })
            },
        },
{
    let ghost cv = content_view(*content);
    let ghost ruv = repo_url_view(*repo_url);
    let mut repo_list: Vec<MooncakeSource> = Vec::new();
    match repo_url {
        Some(u) => {
            let src = MooncakeSource::Git { url: u.clone(), rev: Vec::new(), index: 0 };
            repo_list.push(src);
        },
        None => {},
    }
    let ghost off: int = repo_list@.len() as int;
    proof {
        assert(off == if (ruv is Some) { 1int } else { 0int });
    }
    let c: &String = match content {
        Some(c) => c,
        None => {
            proof {
                lemma_empty_content(cv);
            }
            return Ok(repo_list);
        },
    };
    let lines = split_str(c.as_str(), '\n');
    let ghost ld = lines.deep_view();
    let nl = lines.len();
    let mut li: usize = 0;
    proof {
        assert(ld.subrange(0, 0) =~= Seq::<Seq<char>>::empty());
    }
    while li < nl
        invariant
            0 <= li <= nl,
            repo_list@.len() == off + kept_lines(ld.subrange(0, li as int)).len(),
            (match ruv {
                Some(u) => repo_head_source(repo_list@[0], u),
                None => true,
            }),
            forall|i: int|
                off <= i < repo_list@.len() ==> source_matches_line(
                    *db,
                    kept_lines(ld.subrange(0, li as int))[i - off],
                    #[trigger] repo_list@[i],
                    i,
                ),
            forall|j: int|
                0 <= j < kept_lines(ld.subrange(0, li as int)).len() ==> !line_fails(
                    *db,
                    #[trigger] kept_lines(ld.subrange(0, li as int))[j],
                ),
        decreases nl - li,
    {
        let ghost kept_pre = kept_lines(ld.subrange(0, li as int));
        let t = trim_str(lines[li].as_str());
        proof {
            assert(lines@[li as int]@ == ld[li as int]);
            assert(ld.subrange(0, li as int + 1) =~= ld.subrange(0, li as int) + seq![
                ld[li as int],
            ]);
            lemma_kept_lines_append(ld.subrange(0, li as int), seq![ld[li as int]]);
            assert(seq![ld[li as int]].drop_first() =~= Seq::<Seq<char>>::empty());
            assert(kept_lines(seq![ld[li as int]]) == if line_skipped(ld[li as int]) {
                Seq::<Seq<char>>::empty()
            } else {
                seq![trim_spec(ld[li as int])]
            });
        }
        let skip: bool = if t.unicode_len() == 0 {
            true
        } else {
            t.get_char(0) == '#'
        };
        proof {
            assert(skip == line_skipped(ld[li as int]));
        }
        if !skip {
            let ghost kept_post = kept_lines(ld.subrange(0, li as int + 1));
            proof {
                assert(kept_post =~= kept_pre + seq![t@]);
            }
            if starts_with_str(t.as_str(), "https://") {
                let ur = resolve_git_line(t.as_str());
                let url = ur.0;
                let revs = ur.1;
                let idx = repo_list.len();
                let ghost pre_list = repo_list@;
                repo_list.push(MooncakeSource::Git { url, rev: revs, index: idx });
                proof {
                    assert forall|i: int| off <= i < repo_list@.len() implies source_matches_line(
                        *db,
                        kept_post[i - off],
                        #[trigger] repo_list@[i],
                        i,
                    ) by {
                        if i < idx {
                            assert(repo_list@[i] == pre_list[i]);
                            assert(kept_post[i - off] == kept_pre[i - off]);
                        } else {
                            assert(kept_post[i - off] == t@);
                        }
                    }
                    assert forall|j: int| 0 <= j < kept_post.len() implies !line_fails(
                        *db,
                        #[trigger] kept_post[j],
                    ) by {
                        if j < kept_pre.len() {
                            assert(kept_post[j] == kept_pre[j]);
                        } else {
                            assert(kept_post[j] == t@);
                        }
                    }
                }
            } else {
                match resolve_registry_line(t.as_str(), db) {
                    Ok(nv) => {
                        let name = nv.0;
                        let version = nv.1;
                        let idx = repo_list.len();
                        let ghost pre_list = repo_list@;
                        repo_list.push(MooncakeSource::MooncakesIO { name, version, index: idx });
                        proof {
                            assert forall|i: int|
                                off <= i < repo_list@.len() implies source_matches_line(
                                *db,
                                kept_post[i - off],
                                #[trigger] repo_list@[i],
                                i,
                            ) by {
                                if i < idx {
                                    assert(repo_list@[i] == pre_list[i]);
                                    assert(kept_post[i - off] == kept_pre[i - off]);
                                } else {
                                    assert(kept_post[i - off] == t@);
                                }
                            }
                            assert forall|j: int| 0 <= j < kept_post.len() implies !line_fails(
                                *db,
                                #[trigger] kept_post[j],
                            ) by {
                                if j < kept_pre.len() {
                                    assert(kept_post[j] == kept_pre[j]);
                                } else {
                                    assert(kept_post[j] == t@);
                                }
                            }
                        }
                    },
                    Err(e) => {
                        proof {
                            let full = effective_lines(cv);
                            assert(ld =~= ld.subrange(0, li as int) + ld.subrange(
                                li as int,
                                nl as int,
                            ));
                            lemma_kept_lines_append(
                                ld.subrange(0, li as int),
                                ld.subrange(li as int, nl as int),
                            );
                            let tailk = kept_lines(ld.subrange(li as int, nl as int));
                            assert(ld.subrange(li as int, nl as int)[0] == ld[li as int]);
                            assert(ld.subrange(li as int, nl as int).drop_first() =~= ld.subrange(
                                li as int + 1,
                                nl as int,
                            ));
                            assert(tailk == seq![t@] + kept_lines(
                                ld.subrange(li as int + 1, nl as int),
                            ));
                            let kk = kept_pre.len() as int;
                            assert(full == kept_pre + tailk);
                            assert(full[kk] == t@);
                            assert(line_fails(*db, full[kk]));
                            assert forall|j: int| 0 <= j < kk implies !line_fails(
                                *db,
                                #[trigger] full[j],
                            ) by {
                                assert(full[j] == kept_pre[j]);
                            }
                            assert(first_failing_pkg(*db, cv, pkg_name(t@)));
                        }
                        return Err(e);
                    },
                }
            }
        }
        li = li + 1;
    }
    proof {
        assert(ld.subrange(0, nl as int) =~= ld);
    }
    Ok(repo_list)
}

/// Splitting an absent input yields one blank line and no kept lines.
proof fn lemma_empty_content(cv: Seq<char>)
    requires
        cv == Seq::<char>::empty(),
    ensures
        effective_lines(cv) == Seq::<Seq<char>>::empty(),
{
    assert(split_spec(cv, '\n') == seq![cv]);
    assert(trim_spec(cv) == cv);
    assert(line_skipped(cv));
    assert(seq![cv].drop_first() =~= Seq::<Seq<char>>::empty());
    assert(kept_lines(Seq::<Seq<char>>::empty()) == Seq::<Seq<char>>::empty());
    assert(seq![cv][0] == cv);
    assert(kept_lines(seq![cv]) =~= Seq::<Seq<char>>::empty());
}


/// Two sources that agree in kind, strings and index.
pub open spec fn sources_alike(a: MooncakeSource, b: MooncakeSource) -> bool {
    match (a, b) {
        (
            MooncakeSource::Git { url: u1, rev: r1, index: i1 },
            MooncakeSource::Git { url: u2, rev: r2, index: i2 },
        ) => {
            &&& u1@ == u2@
            &&& r1.deep_view() == r2.deep_view()
            &&& i1 == i2
        },
        (
            MooncakeSource::MooncakesIO { name: n1, version: v1, index: i1 },
            MooncakeSource::MooncakesIO { name: n2, version: v2, index: i2 },
        ) => {
            &&& n1@ == n2@
            &&& v1.deep_view() == v2.deep_view()
            &&& i1 == i2
        },
        _ => false,
    }
}

/// Resolution is deterministic: two resolutions of the same inputs
/// against the same registry index yield the same source list, source
/// for source and string for string. The version lists agree because a
/// strictly sorted list is pinned by the set of its elements.
pub proof fn lemma_resolver_deterministic(
    repo_url: Option<Seq<char>>,
    content: Seq<char>,
    db: MooncakesDB,
    a: Seq<MooncakeSource>,
    b: Seq<MooncakeSource>,
)
    requires
        resolve_post(repo_url, content, db, a),
        resolve_post(repo_url, content, db, b),
    ensures
        a.len() == b.len(),
        forall|i: int| 0 <= i < a.len() ==> sources_alike(#[trigger] a[i], b[i]),
{
    let off: int = if (repo_url is Some) {
        1
    } else {
        0
    };
    assert forall|i: int| 0 <= i < a.len() implies sources_alike(#[trigger] a[i], b[i]) by {
        if i < off {
            match (a[i], b[i]) {
                (
                    MooncakeSource::Git { url: u1, rev: r1, index: i1 },
                    MooncakeSource::Git { url: u2, rev: r2, index: i2 },
                ) => {
                    assert(r1.deep_view() =~= r2.deep_view());
                },
                _ => {},
            }
        } else {
            let t = effective_lines(content)[i - off];
            assert(source_matches_line(db, t, a[i], i));
            assert(source_matches_line(db, t, b[i], i));
            if !is_git_line(t) {
                match (a[i], b[i]) {
                    (
                        MooncakeSource::MooncakesIO { name: n1, version: v1, index: i1 },
                        MooncakeSource::MooncakesIO { name: n2, version: v2, index: i2 },
                    ) => {
                        lemma_strictly_sorted_unique(v1.deep_view(), v2.deep_view());
                    },
                    _ => {},
                }
            }
        }
    }
}

} // verus!
