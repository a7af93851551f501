use vstd::prelude::*;

use crate::config::{
    first_match, lemma_first_match, lemma_upsert, names_unique, upsert, without_name, Addon,
    AddonModel, Config,
};
use crate::error::Error;
use crate::git::{extract_repo_name, is_valid_git_url, repo_name, valid_git_url};
use crate::text::{chars_of, concat_chars, string_of};

verus! {

/// `addons/` as characters.
pub open spec fn addons_prefix() -> Seq<char> {
    seq!['a', 'd', 'd', 'o', 'n', 's', '/']
}

/// The ignore-file line of the addon `name`: `addons/<name>`.
pub open spec fn ignore_entry_of(name: Seq<char>) -> Seq<char> {
    addons_prefix() + name
}

/// The ignore-file line of the addon `name`.
pub fn ignore_entry(name: &String) -> (r: String)
    ensures
        r@ == ignore_entry_of(name@),
{
    let p = vec!['a', 'd', 'd', 'o', 'n', 's', '/'];
    string_of(&concat_chars(&p, &chars_of(name.as_str())))
}

/// Refuses to run outside a project: `marker_present` says whether the
/// project marker file is in the current directory.
pub fn ensure_in_godot_project(marker_present: bool) -> (r: Result<(), Error>)
    ensures
        marker_present <==> r is Ok,
        r matches Err(e) ==> e is NotInProject,
{
    if marker_present {
        Ok(())
    } else {
        Err(Error::NotInProject)
    }
}

/// Checks a source URL and derives its cache key: `InvalidUrl` holding the
/// URL where it is not a git transport or has no last path segment.
pub fn prepare_install(url: &String) -> (r: Result<String, Error>)
    ensures
        r is Ok <==> valid_git_url(url@) && repo_name(url@) is Some,
        r matches Ok(k) ==> repo_name(url@) == Some(k@),
        r matches Err(e) ==> e matches Error::InvalidUrl(u) && u@ == url@,
{
    if !is_valid_git_url(url.as_str()) {
        return Err(Error::InvalidUrl(url.clone()));
    }
    match extract_repo_name(url.as_str()) {
        Some(k) => Ok(k),
        None => Err(Error::InvalidUrl(url.clone())),
    }
}

/// An addon found under a source's `addons/` directory: its directory name
/// and the version its descriptor declares (empty where unknown).
#[derive(Clone, Debug)]
pub struct FoundAddon {
    pub name: String,
    pub version: String,
}

pub open spec fn found_models(f: Seq<FoundAddon>) -> Seq<(Seq<char>, Seq<char>)> {
    f.map_values(|a: FoundAddon| (a.name@, a.version@))
}

/// The manifest entry recorded for a found addon.
pub open spec fn entry_of(
    found: (Seq<char>, Seq<char>),
    source: Seq<char>,
    checksum: Seq<char>,
) -> AddonModel {
    AddonModel { name: found.0, version: found.1, source, checksum }
}

/// The manifest entries once every found addon has been recorded, in order,
/// each replacing any entry of its name.
pub open spec fn installed(
    s: Seq<AddonModel>,
    source: Seq<char>,
    checksum: Seq<char>,
    found: Seq<(Seq<char>, Seq<char>)>,
) -> Seq<AddonModel>
    decreases found.len(),
{
    if found.len() == 0 {
        s
    } else {
        upsert(installed(s, source, checksum, found.drop_last()), entry_of(found.last(), source, checksum))
    }
}

/// Records the addons found in one source, all at the source's commit
/// `checksum`, and gives the ignore-file lines of their directories.
pub fn install_source(
    config: &mut Config,
    source: &String,
    checksum: &String,
    found: &Vec<FoundAddon>,
) -> (r: Vec<String>)
    ensures
        final(config)@.version == old(config)@.version,
        final(config)@.addons == installed(old(config)@.addons, source@, checksum@, found_models(found@)),
        r@.len() == found@.len(),
        forall|k: int| 0 <= k < found@.len() ==> #[trigger] r@[k]@ == ignore_entry_of(found@[k].name@),
{
    let ghost s0 = old(config)@.addons;
    let ghost fm = found_models(found@);
    let mut entries: Vec<String> = Vec::new();
    let mut i: usize = 0;
    assert(fm.take(0) =~= Seq::<(Seq<char>, Seq<char>)>::empty());
    while i < found.len()
        invariant
            i <= found@.len(),
            fm == found_models(found@),
            config@.version == old(config)@.version,
            config@.addons == installed(s0, source@, checksum@, fm.take(i as int)),
            entries@.len() == i,
            forall|k: int| 0 <= k < i ==> #[trigger] entries@[k]@ == ignore_entry_of(found@[k].name@),
        decreases found@.len() - i,
    {
        let f = &found[i];
        let a = Addon {
            name: f.name.clone(),
            version: f.version.clone(),
            source: source.clone(),
            checksum: checksum.clone(),
        };
        assert(fm[i as int] == (f.name@, f.version@));
        assert(fm.take(i + 1).drop_last() =~= fm.take(i as int));
        assert(fm.take(i + 1).last() == fm[i as int]);
        config.upsert(a);
        entries.push(ignore_entry(&f.name));
        i = i + 1;
    }
    assert(fm.take(i as int) =~= fm);
    entries
}

/// No two found addons share a name.
pub open spec fn found_names_distinct(found: Seq<(Seq<char>, Seq<char>)>) -> bool {
    forall|i: int, j: int| 0 <= i < j < found.len() ==> found[i].0 != found[j].0
}

/// Recording the found addons keeps names unique, and leaves for each found
/// addon an entry of its name with the source and the commit installed.
pub proof fn lemma_installed(
    s: Seq<AddonModel>,
    source: Seq<char>,
    checksum: Seq<char>,
    found: Seq<(Seq<char>, Seq<char>)>,
)
    ensures
        names_unique(s) ==> names_unique(installed(s, source, checksum, found)),
        forall|k: int|
            #![trigger found[k]]
            0 <= k < found.len() ==> exists|j: int|
                0 <= j < installed(s, source, checksum, found).len()
                    && installed(s, source, checksum, found)[j].name == found[k].0
                    && installed(s, source, checksum, found)[j].source == source
                    && installed(s, source, checksum, found)[j].checksum == checksum,
    decreases found.len(),
{
    if found.len() > 0 {
        let p = found.drop_last();
        lemma_installed(s, source, checksum, p);
        let prev = installed(s, source, checksum, p);
        let a = entry_of(found.last(), source, checksum);
        lemma_upsert(prev, a);
        let cur = installed(s, source, checksum, found);
        assert(cur == upsert(prev, a));
        assert forall|k: int| #![trigger found[k]] 0 <= k < found.len() implies exists|j: int|
            0 <= j < cur.len() && cur[j].name == found[k].0 && cur[j].source == source
                && cur[j].checksum == checksum by {
            if found[k].0 == a.name {
                assert(cur[cur.len() - 1] == a);
            } else {
                assert(p[k] == found[k]);
                let j0 = choose|j: int|
                    0 <= j < prev.len() && prev[j].name == p[k].0 && prev[j].source == source
                        && prev[j].checksum == checksum;
                assert(prev[j0].name != a.name);
                assert(cur.contains(prev[j0]));
                let j1 = choose|j: int| 0 <= j < cur.len() && cur[j] == prev[j0];
                assert(cur[j1].name == found[k].0);
            }
        }
    }
}

/// Installing into an empty manifest addons with distinct names gives exactly
/// one entry per addon, all with the source's commit as checksum, with
/// distinct names.
pub proof fn lemma_install_fresh(
    source: Seq<char>,
    checksum: Seq<char>,
    found: Seq<(Seq<char>, Seq<char>)>,
)
    requires
        found_names_distinct(found),
    ensures
        installed(Seq::empty(), source, checksum, found) == found.map_values(
            |f: (Seq<char>, Seq<char>)| entry_of(f, source, checksum),
        ),
        installed(Seq::empty(), source, checksum, found).len() == found.len(),
        names_unique(installed(Seq::empty(), source, checksum, found)),
        forall|k: int|
            0 <= k < found.len() ==> (#[trigger] installed(Seq::empty(), source, checksum, found)[k]).checksum == checksum,
    decreases found.len(),
{
    let m = found.map_values(|f: (Seq<char>, Seq<char>)| entry_of(f, source, checksum));
    if found.len() > 0 {
        let p = found.drop_last();
        lemma_install_fresh(source, checksum, p);
        let prev = installed(Seq::empty(), source, checksum, p);
        let a = entry_of(found.last(), source, checksum);
        assert forall|k: int| 0 <= k < prev.len() implies #[trigger] prev[k].name != a.name by {
            assert(prev[k].name == p[k].0);
            assert(found[k].0 != found[found.len() - 1].0);
        }
        lemma_no_name_without(prev, a.name);
        assert(m =~= prev.push(a));
    } else {
        assert(m =~= Seq::<AddonModel>::empty());
    }
}

/// Removing a name that no entry has changes nothing.
proof fn lemma_no_name_without(s: Seq<AddonModel>, name: Seq<char>)
    requires
        forall|k: int| 0 <= k < s.len() ==> #[trigger] s[k].name != name,
    ensures
        without_name(s, name) == s,
    decreases s.len(),
{
    if s.len() > 0 {
        lemma_no_name_without(s.drop_last(), name);
        assert(s.drop_last().push(s.last()) =~= s);
    }
}

/// Installing the same source twice leaves one entry per name (replacing,
/// not duplicating) and an entry for every addon found.
pub proof fn lemma_install_twice(
    s: Seq<AddonModel>,
    source: Seq<char>,
    checksum1: Seq<char>,
    checksum2: Seq<char>,
    found: Seq<(Seq<char>, Seq<char>)>,
)
    requires
        names_unique(s),
    ensures
        ({
            let t = installed(installed(s, source, checksum1, found), source, checksum2, found);
            &&& names_unique(t)
            &&& forall|k: int|
                #![trigger found[k]]
                0 <= k < found.len() ==> exists|j: int|
                    0 <= j < t.len() && t[j].name == found[k].0 && t[j].source == source
                        && t[j].checksum == checksum2
        }),
{
    lemma_installed(s, source, checksum1, found);
    lemma_installed(installed(s, source, checksum1, found), source, checksum2, found);
}

} // verus!

verus! {

/// The cache key of a manifest entry's source, for re-materializing it at its
/// pinned commit; `InvalidUrl` holding the source where it has none.
pub fn cache_key_for(addon: &Addon) -> (r: Result<String, Error>)
    ensures
        r is Ok <==> repo_name(addon.source@) is Some,
        r matches Ok(k) ==> repo_name(addon.source@) == Some(k@),
        r matches Err(e) ==> e matches Error::InvalidUrl(u) && u@ == addon.source@,
{
    match extract_repo_name(addon.source.as_str()) {
        Some(k) => Ok(k),
        None => Err(Error::InvalidUrl(addon.source.clone())),
    }
}

/// Removes the addon that `query` names: the first entry whose name or
/// source equals it decides the name, and every entry of that name goes.
/// Gives that name, whose directory the caller removes; `AddonNotFound`
/// holding the query, with the manifest untouched, where no entry matches.
pub fn uninstall(config: &mut Config, query: &String) -> (r: Result<String, Error>)
    ensures
        r is Err <==> first_match(old(config)@.addons, query@) is None,
        r matches Err(e) ==> e matches Error::AddonNotFound(q) && q@ == query@,
        r is Err ==> final(config)@ == old(config)@,
        r matches Ok(n) ==> ({
            let i = first_match(old(config)@.addons, query@)->0;
            &&& 0 <= i < old(config)@.addons.len()
            &&& n@ == old(config)@.addons[i].name
            &&& final(config)@.version == old(config)@.version
            &&& final(config)@.addons == without_name(old(config)@.addons, n@)
        }),
{
    proof {
        lemma_first_match(config@.addons, query@);
    }
    match config.find_match(query) {
        Some(i) => {
            let name = config.addons[i].name.clone();
            config.remove_named(&name);
            Ok(name)
        },
        None => Err(Error::AddonNotFound(query.clone())),
    }
}

/// Uninstalling a query that matches no entry fails with a not-found error
/// and leaves the manifest as it was.
pub proof fn lemma_uninstall_missing(s: Seq<AddonModel>, query: Seq<char>)
    requires
        forall|i: int| 0 <= i < s.len() ==> #[trigger] s[i].name != query && s[i].source != query,
    ensures
        first_match(s, query) is None,
    decreases s.len(),
{
    if s.len() > 0 {
        let p = s.drop_last();
        assert forall|i: int| 0 <= i < p.len() implies #[trigger] p[i].name != query && p[i].source != query by {
            assert(p[i] == s[i]);
        }
        lemma_uninstall_missing(p, query);
        assert(s[s.len() - 1] == s.last());
    }
}

} // verus!
