use vstd::prelude::*;

use crate::config::{find_name, names_unique, Addon, AddonModel, Config, models};
use crate::error::Error;
use crate::text::opt_view;

verus! {

/// What upgrading one addon comes to, once its source's latest commit is known.
#[derive(Clone, Copy, Debug, PartialEq, Eq, Structural)]
pub enum UpgradeStep {
    /// The stored commit is the latest: nothing to do.
    UpToDate,
    /// The latest commit no longer holds the addon: skip it with a warning.
    Missing,
    /// Materialize the latest commit and stage a new revision.
    Update,
}

pub open spec fn upgrade_step_of(stored: Seq<char>, latest: Seq<char>, present: bool) -> UpgradeStep {
    if stored == latest {
        UpgradeStep::UpToDate
    } else if !present {
        UpgradeStep::Missing
    } else {
        UpgradeStep::Update
    }
}

/// Decides what to do with an addon stored at commit `stored` whose source's
/// latest commit is `latest`; `present` says whether that commit holds the
/// addon's directory.
pub fn upgrade_step(stored: &String, latest: &String, present: bool) -> (r: UpgradeStep)
    ensures
        r == upgrade_step_of(stored@, latest@, present),
{
    if *stored == *latest {
        UpgradeStep::UpToDate
    } else if !present {
        UpgradeStep::Missing
    } else {
        UpgradeStep::Update
    }
}

/// The indices of the entries an upgrade looks at: the one named `name`, or
/// all of them; none in an empty manifest.
pub open spec fn selection_of(s: Seq<AddonModel>, name: Option<Seq<char>>) -> Option<Seq<int>> {
    if s.len() == 0 {
        Some(Seq::empty())
    } else {
        match name {
            Some(n) => match find_name(s, n) {
                Some(i) => Some(seq![i]),
                None => None,
            },
            None => Some(Seq::new(s.len(), |i: int| i)),
        }
    }
}

pub open spec fn indices(v: Seq<usize>) -> Seq<int> {
    v.map_values(|i: usize| i as int)
}

/// Picks the entries to upgrade; `AddonNotFound` holding the name where no
/// entry has it.
pub fn select_for_upgrade(config: &Config, name: &Option<String>) -> (r: Result<Vec<usize>, Error>)
    ensures
        r is Err <==> selection_of(config@.addons, opt_view(*name)) is None,
        r matches Ok(v) ==> selection_of(config@.addons, opt_view(*name)) == Some(
            indices(v@),
        ),
        r matches Err(e) ==> e matches Error::AddonNotFound(m) && Some(m@) == opt_view(*name),
{
    let n = config.addons.len();
    let mut v: Vec<usize> = Vec::new();
    if n == 0 {
        assert(indices(v@) =~= Seq::<int>::empty());
        return Ok(v);
    }
    match name {
        Some(want) => match config.find_named(want) {
            Some(i) => {
                v.push(i);
                assert(indices(v@) =~= seq![i as int]);
                Ok(v)
            },
            None => Err(Error::AddonNotFound(want.clone())),
        },
        None => {
            let mut i: usize = 0;
            while i < n
                invariant
                    i <= n,
                    n == config@.addons.len(),
                    v@.len() == i,
                    indices(v@) =~= Seq::new(i as nat, |k: int| k),
                decreases n - i,
            {
                let ghost before = v@;
                v.push(i);
                assert forall|k: int| 0 <= k < i + 1 implies #[trigger] indices(v@)[k] == k by {
                    if k < i {
                        assert(v@[k] == before[k]);
                        assert(indices(before)[k] == k);
                    }
                }
                assert(indices(v@) =~= Seq::new((i + 1) as nat, |k: int| k));
                i = i + 1;
            }
            Ok(v)
        },
    }
}

/// A staged change of one entry: its new commit and display version.
#[derive(Clone, Debug)]
pub struct Revision {
    pub name: String,
    pub checksum: String,
    pub version: String,
}

pub struct RevisionModel {
    pub name: Seq<char>,
    pub checksum: Seq<char>,
    pub version: Seq<char>,
}

pub open spec fn revision_models(s: Seq<Revision>) -> Seq<RevisionModel> {
    s.map_values(|x: Revision| x@)
}

impl View for Revision {
    type V = RevisionModel;

    open spec fn view(&self) -> RevisionModel {
        RevisionModel { name: self.name@, checksum: self.checksum@, version: self.version@ }
    }
}

/// `s` with the first entry named `r.name` moved to `r`'s commit and version.
pub open spec fn set_revision(s: Seq<AddonModel>, r: RevisionModel) -> Seq<AddonModel> {
    match find_name(s, r.name) {
        Some(i) => s.update(i, AddonModel { checksum: r.checksum, version: r.version, ..s[i] }),
        None => s,
    }
}

/// `s` once every staged revision is written back, in order.
pub open spec fn apply_revisions(s: Seq<AddonModel>, rs: Seq<RevisionModel>) -> Seq<AddonModel>
    decreases rs.len(),
{
    if rs.len() == 0 {
        s
    } else {
        set_revision(apply_revisions(s, rs.drop_last()), rs.last())
    }
}

/// Writes the staged revisions back into the manifest; true where there was
/// any, that is where the manifest must be saved.
pub fn apply_upgrades(config: &mut Config, staged: &Vec<Revision>) -> (r: bool)
    ensures
        final(config)@.version == old(config)@.version,
        final(config)@.addons == apply_revisions(
            old(config)@.addons,
            revision_models(staged@),
        ),
        r == (staged@.len() > 0),
{
    let ghost rs = revision_models(staged@);
    let ghost s0 = old(config)@.addons;
    let mut k: usize = 0;
    assert(rs.take(0) =~= Seq::<RevisionModel>::empty());
    while k < staged.len()
        invariant
            k <= staged@.len(),
            rs == revision_models(staged@),
            config@.version == old(config)@.version,
            config@.addons == apply_revisions(s0, rs.take(k as int)),
        decreases staged@.len() - k,
    {
        let rev = &staged[k];
        assert(rs.take(k + 1).drop_last() =~= rs.take(k as int));
        assert(rs.take(k + 1).last() == rev@);
        let found = config.find_named(&rev.name);
        proof {
            lemma_find_name(config@.addons, rev.name@);
        }
        match found {
            Some(i) => {
                let ghost before = config.addons@;
                let old_entry = &config.addons[i];
                let a = Addon {
                    name: old_entry.name.clone(),
                    version: rev.version.clone(),
                    source: old_entry.source.clone(),
                    checksum: rev.checksum.clone(),
                };
                config.addons.set(i, a);
                assert(models(config.addons@) =~= models(before).update(
                    i as int,
                    AddonModel { checksum: rev.checksum@, version: rev.version@, ..models(before)[i as int] },
                ));
            },
            None => {},
        }
        k = k + 1;
    }
    assert(rs.take(k as int) =~= rs);
    k > 0
}

/// Where `find_name` lands.
pub proof fn lemma_find_name(s: Seq<AddonModel>, n: Seq<char>)
    ensures
        find_name(s, n) matches Some(i) ==> 0 <= i < s.len() && s[i].name == n,
        find_name(s, n) is None ==> forall|j: int| 0 <= j < s.len() ==> #[trigger] s[j].name != n,
    decreases s.len(),
{
    if s.len() > 0 {
        lemma_find_name(s.drop_last(), n);
        assert forall|j: int| 0 <= j < s.len() - 1 implies #[trigger] s[j] == s.drop_last()[j] by {}
    }
}

/// The names and sources of `s`, position by position.
pub open spec fn same_keys(s: Seq<AddonModel>, t: Seq<AddonModel>) -> bool {
    s.len() == t.len() && forall|i: int|
        0 <= i < s.len() ==> (#[trigger] t[i]).name == s[i].name && t[i].source == s[i].source
}

/// No two revisions share a name.
pub open spec fn revision_names_distinct(rs: Seq<RevisionModel>) -> bool {
    forall|i: int, j: int| 0 <= i < j < rs.len() ==> rs[i].name != rs[j].name
}

/// Written back into unique names, each revision lands on the entry of its
/// name and every other entry stays as it was.
proof fn lemma_apply_revisions(s: Seq<AddonModel>, rs: Seq<RevisionModel>)
    requires
        names_unique(s),
        revision_names_distinct(rs),
    ensures
        same_keys(s, apply_revisions(s, rs)),
        forall|i: int, k: int|
            0 <= i < s.len() && 0 <= k < rs.len() && #[trigger] rs[k].name == #[trigger] s[i].name
                ==> apply_revisions(s, rs)[i].checksum == rs[k].checksum,
        forall|i: int|
            0 <= i < s.len() && (forall|k: int| 0 <= k < rs.len() ==> #[trigger] rs[k].name != s[i].name)
                ==> #[trigger] apply_revisions(s, rs)[i] == s[i],
    decreases rs.len(),
{
    if rs.len() > 0 {
        let p = rs.drop_last();
        let r = rs.last();
        assert forall|i: int, j: int| 0 <= i < j < p.len() implies p[i].name != p[j].name by {
            assert(p[i] == rs[i] && p[j] == rs[j]);
        }
        lemma_apply_revisions(s, p);
        let t = apply_revisions(s, p);
        lemma_find_name(t, r.name);
        let u = apply_revisions(s, rs);
        assert(u == set_revision(t, r));
        assert forall|i: int, k: int|
            0 <= i < s.len() && 0 <= k < rs.len() && #[trigger] rs[k].name == #[trigger] s[i].name
                implies u[i].checksum == rs[k].checksum by {
            if k == rs.len() - 1 {
                let i0 = find_name(t, r.name)->0;
                assert(t[i].name == r.name);
                if i0 != i {
                    assert(t[i0].name == s[i0].name);
                }
            } else {
                assert(p[k] == rs[k]);
                assert(rs[k].name != r.name);
                match find_name(t, r.name) {
                    Some(i0) => {
                        assert(i0 != i);
                    },
                    None => {},
                }
            }
        }
        assert forall|i: int|
            0 <= i < s.len() && (forall|k: int| 0 <= k < rs.len() ==> #[trigger] rs[k].name != s[i].name)
                implies #[trigger] u[i] == s[i] by {
            assert forall|k: int| 0 <= k < p.len() implies #[trigger] p[k].name != s[i].name by {
                assert(p[k] == rs[k]);
            }
            assert(rs[rs.len() - 1].name != s[i].name);
            match find_name(t, r.name) {
                Some(i0) => {
                    assert(i0 != i);
                },
                None => {},
            }
        }
    }
}

/// The revisions that one upgrade run stages over `s`, when each source's
/// latest commit is `latest(source)`, `present(source, name)` says whether it
/// still holds the addon, and `version(source, name)` is the version its
/// descriptor declares there.
pub open spec fn staged_for(
    s: Seq<AddonModel>,
    latest: spec_fn(Seq<char>) -> Seq<char>,
    present: spec_fn(Seq<char>, Seq<char>) -> bool,
    version: spec_fn(Seq<char>, Seq<char>) -> Seq<char>,
) -> Seq<RevisionModel>
    decreases s.len(),
{
    if s.len() == 0 {
        Seq::empty()
    } else {
        let rest = staged_for(s.drop_last(), latest, present, version);
        let a = s.last();
        if upgrade_step_of(a.checksum, latest(a.source), present(a.source, a.name)) is Update {
            rest.push(
                RevisionModel {
                    name: a.name,
                    checksum: latest(a.source),
                    version: version(a.source, a.name),
                },
            )
        } else {
            rest
        }
    }
}

/// Whether an upgrade run stages a revision for `a`.
pub open spec fn wants_update(
    a: AddonModel,
    latest: spec_fn(Seq<char>) -> Seq<char>,
    present: spec_fn(Seq<char>, Seq<char>) -> bool,
) -> bool {
    upgrade_step_of(a.checksum, latest(a.source), present(a.source, a.name)) is Update
}

/// `r` moves an entry of `s` that wants an update to its source's latest commit.
pub open spec fn revision_from(
    s: Seq<AddonModel>,
    r: RevisionModel,
    latest: spec_fn(Seq<char>) -> Seq<char>,
    present: spec_fn(Seq<char>, Seq<char>) -> bool,
) -> bool {
    exists|i: int|
        0 <= i < s.len() && #[trigger] s[i].name == r.name && r.checksum == latest(s[i].source)
            && wants_update(s[i], latest, present)
}

#[verifier::rlimit(40)]
proof fn lemma_staged_for(
    s: Seq<AddonModel>,
    latest: spec_fn(Seq<char>) -> Seq<char>,
    present: spec_fn(Seq<char>, Seq<char>) -> bool,
    version: spec_fn(Seq<char>, Seq<char>) -> Seq<char>,
)
    requires
        names_unique(s),
    ensures
        revision_names_distinct(staged_for(s, latest, present, version)),
        forall|k: int|
            0 <= k < staged_for(s, latest, present, version).len() ==> revision_from(
                s,
                #[trigger] staged_for(s, latest, present, version)[k],
                latest,
                present,
            ),
        forall|i: int|
            0 <= i < s.len() && wants_update(#[trigger] s[i], latest, present) ==> exists|k: int|
                0 <= k < staged_for(s, latest, present, version).len()
                    && staged_for(s, latest, present, version)[k].name == s[i].name,
    decreases s.len(),
{
    if s.len() > 0 {
        let p = s.drop_last();
        assert forall|i: int, j: int| 0 <= i < j < p.len() implies p[i].name != p[j].name by {
            assert(p[i] == s[i] && p[j] == s[j]);
        }
        lemma_staged_for(p, latest, present, version);
        let rest = staged_for(p, latest, present, version);
        let st = staged_for(s, latest, present, version);
        let a = s.last();
        let last = s.len() - 1;
        assert(s[last] == a);
        assert forall|k: int| 0 <= k < rest.len() implies revision_from(s, #[trigger] rest[k], latest, present)
            && rest[k].name != a.name by {
            assert(revision_from(p, rest[k], latest, present));
            let i = choose|i: int|
                0 <= i < p.len() && #[trigger] p[i].name == rest[k].name && rest[k].checksum == latest(p[i].source)
                    && wants_update(p[i], latest, present);
            assert(s[i] == p[i]);
            assert(s[i].name == rest[k].name);
        }
        if wants_update(a, latest, present) {
            let r = RevisionModel { name: a.name, checksum: latest(a.source), version: version(a.source, a.name) };
            assert(st == rest.push(r));
            assert(revision_from(s, r, latest, present)) by {
                assert(s[last].name == r.name);
            }
            assert forall|k: int| 0 <= k < st.len() implies revision_from(s, #[trigger] st[k], latest, present) by {
                if k < rest.len() {
                    assert(st[k] == rest[k]);
                } else {
                    assert(st[k] == r);
                }
            }
            assert forall|i: int, j: int| 0 <= i < j < st.len() implies st[i].name != st[j].name by {
                assert(st[i] == rest[i]);
                if j < rest.len() {
                    assert(st[j] == rest[j]);
                }
            }
            assert forall|i: int| 0 <= i < s.len() && wants_update(#[trigger] s[i], latest, present) implies exists|k: int|
                0 <= k < st.len() && st[k].name == s[i].name by {
                if i < p.len() {
                    assert(p[i] == s[i]);
                    let k = choose|k: int| 0 <= k < rest.len() && rest[k].name == p[i].name;
                    assert(st[k] == rest[k]);
                } else {
                    assert(st[rest.len() as int] == r);
                }
            }
        } else {
            assert(st == rest);
            assert forall|i: int| 0 <= i < s.len() && wants_update(#[trigger] s[i], latest, present) implies exists|k: int|
                0 <= k < st.len() && st[k].name == s[i].name by {
                assert(i != last);
                assert(p[i] == s[i]);
            }
        }
    }
}

/// Where no entry calls for an update, nothing is staged.
proof fn lemma_nothing_staged(
    s: Seq<AddonModel>,
    latest: spec_fn(Seq<char>) -> Seq<char>,
    present: spec_fn(Seq<char>, Seq<char>) -> bool,
    version: spec_fn(Seq<char>, Seq<char>) -> Seq<char>,
)
    requires
        forall|i: int|
            0 <= i < s.len() ==> !(upgrade_step_of(
                (#[trigger] s[i]).checksum,
                latest(s[i].source),
                present(s[i].source, s[i].name),
            ) is Update),
    ensures
        staged_for(s, latest, present, version).len() == 0,
    decreases s.len(),
{
    if s.len() > 0 {
        let p = s.drop_last();
        assert forall|i: int| 0 <= i < p.len() implies !(upgrade_step_of(
            (#[trigger] p[i]).checksum,
            latest(p[i].source),
            present(p[i].source, p[i].name),
        ) is Update) by {
            assert(p[i] == s[i]);
        }
        lemma_nothing_staged(p, latest, present, version);
        assert(s[s.len() - 1] == s.last());
    }
}

/// Upgrading is idempotent: once an upgrade run's revisions are written back,
/// a second run against the same upstream state finds every addon up to date
/// or missing, and stages nothing, so it neither copies nor saves.
#[verifier::rlimit(60)]
pub proof fn lemma_upgrade_idempotent(
    s: Seq<AddonModel>,
    latest: spec_fn(Seq<char>) -> Seq<char>,
    present: spec_fn(Seq<char>, Seq<char>) -> bool,
    version: spec_fn(Seq<char>, Seq<char>) -> Seq<char>,
)
    requires
        names_unique(s),
    ensures
        ({
            let t = apply_revisions(s, staged_for(s, latest, present, version));
            &&& t.len() == s.len()
            &&& forall|i: int|
                0 <= i < t.len() ==> !(upgrade_step_of(
                    (#[trigger] t[i]).checksum,
                    latest(t[i].source),
                    present(t[i].source, t[i].name),
                ) is Update)
            &&& staged_for(t, latest, present, version).len() == 0
        }),
{
    let rs = staged_for(s, latest, present, version);
    lemma_staged_for(s, latest, present, version);
    lemma_apply_revisions(s, rs);
    let t = apply_revisions(s, rs);
    assert forall|i: int| 0 <= i < t.len() implies !(upgrade_step_of(
        (#[trigger] t[i]).checksum,
        latest(t[i].source),
        present(t[i].source, t[i].name),
    ) is Update) by {
        assert(t[i].name == s[i].name && t[i].source == s[i].source);
        if wants_update(s[i], latest, present) {
            let k = choose|k: int| 0 <= k < rs.len() && rs[k].name == s[i].name;
            assert(revision_from(s, rs[k], latest, present));
            let j = choose|j: int|
                0 <= j < s.len() && #[trigger] s[j].name == rs[k].name && rs[k].checksum == latest(s[j].source)
                    && wants_update(s[j], latest, present);
            assert(j == i);
            assert(t[i].checksum == rs[k].checksum);
        } else {
            assert forall|k: int| 0 <= k < rs.len() implies #[trigger] rs[k].name != s[i].name by {
                assert(revision_from(s, rs[k], latest, present));
                let j = choose|j: int|
                    0 <= j < s.len() && #[trigger] s[j].name == rs[k].name && rs[k].checksum == latest(s[j].source)
                        && wants_update(s[j], latest, present);
                if rs[k].name == s[i].name {
                    assert(j == i);
                }
            }
            assert(t[i] == s[i]);
        }
    }
    lemma_nothing_staged(t, latest, present, version);
}

} // verus!
