use vstd::prelude::*;

verus! {

/// The manifest's file name.
pub const CONFIG_FILE: &'static str = "gdam.yaml";

/// The project's directory of materialized addons.
pub const ADDONS_DIR: &'static str = "addons";

/// The format version that a new manifest is written with.
pub const CONFIG_VERSION: u32 = 1;

/// One tracked dependency.
#[derive(Clone, Debug, PartialEq, Eq)]
pub struct Addon {
    pub name: String,
    pub version: String,
    pub source: String,
    pub checksum: String,
}

/// What an `Addon` holds, as character sequences.
pub struct AddonModel {
    pub name: Seq<char>,
    pub version: Seq<char>,
    pub source: Seq<char>,
    pub checksum: Seq<char>,
}

impl View for Addon {
    type V = AddonModel;

    open spec fn view(&self) -> AddonModel {
        AddonModel {
            name: self.name@,
            version: self.version@,
            source: self.source@,
            checksum: self.checksum@,
        }
    }
}

/// The declared-dependency list of a project.
#[derive(Clone, Debug, PartialEq, Eq)]
pub struct Config {
    pub version: u32,
    pub addons: Vec<Addon>,
}

/// What a `Config` holds: its format version and its entries, in order.
pub struct ConfigModel {
    pub version: u32,
    pub addons: Seq<AddonModel>,
}

pub open spec fn models(s: Seq<Addon>) -> Seq<AddonModel> {
    s.map_values(|a: Addon| a@)
}

impl View for Config {
    type V = ConfigModel;

    open spec fn view(&self) -> ConfigModel {
        ConfigModel { version: self.version, addons: models(self.addons@) }
    }
}

impl Default for Config {
    /// An empty manifest of the current format version.
    fn default() -> (r: Config)
        ensures
            r@.version == CONFIG_VERSION,
            r@.addons.len() == 0,
    {
        Config::new()
    }
}

/// No two entries share a name.
pub open spec fn names_unique(s: Seq<AddonModel>) -> bool {
    forall|i: int, j: int| 0 <= i < j < s.len() ==> s[i].name != s[j].name
}

/// The entries of `s` whose name is not `name`, in order.
pub open spec fn without_name(s: Seq<AddonModel>, name: Seq<char>) -> Seq<AddonModel>
    decreases s.len(),
{
    if s.len() == 0 {
        s
    } else {
        let rest = without_name(s.drop_last(), name);
        if s.last().name == name {
            rest
        } else {
            rest.push(s.last())
        }
    }
}

/// `s` once `a` has replaced any entry of its name, at the end.
pub open spec fn upsert(s: Seq<AddonModel>, a: AddonModel) -> Seq<AddonModel> {
    without_name(s, a.name).push(a)
}

/// The index of the first entry whose name or source is `query`.
pub open spec fn first_match(s: Seq<AddonModel>, query: Seq<char>) -> Option<int>
    decreases s.len(),
{
    if s.len() == 0 {
        None
    } else {
        match first_match(s.drop_last(), query) {
            Some(i) => Some(i),
            None => if s.last().name == query || s.last().source == query {
                Some(s.len() - 1)
            } else {
                None
            },
        }
    }
}

/// The index of the first entry named `name`.
pub open spec fn find_name(s: Seq<AddonModel>, name: Seq<char>) -> Option<int>
    decreases s.len(),
{
    if s.len() == 0 {
        None
    } else {
        match find_name(s.drop_last(), name) {
            Some(i) => Some(i),
            None => if s.last().name == name {
                Some(s.len() - 1)
            } else {
                None
            },
        }
    }
}

/// Every entry of `without_name(s, name)` comes from `s` and is not named
/// `name`; every entry of `s` not named `name` stays.
pub proof fn lemma_without_name(s: Seq<AddonModel>, name: Seq<char>)
    ensures
        forall|k: int|
            0 <= k < without_name(s, name).len() ==> (#[trigger] without_name(s, name)[k]).name
                != name && s.contains(without_name(s, name)[k]),
        forall|k: int|
            0 <= k < s.len() && #[trigger] s[k].name != name ==> without_name(s, name).contains(
                s[k],
            ),
        without_name(s, name).len() <= s.len(),
        names_unique(s) ==> names_unique(without_name(s, name)),
    decreases s.len(),
{
    if s.len() > 0 {
        let p = s.drop_last();
        lemma_without_name(p, name);
        let rest = without_name(p, name);
        assert forall|k: int| 0 <= k < p.len() implies #[trigger] s[k] == p[k] by {}
        assert forall|k: int| 0 <= k < rest.len() implies s.contains(#[trigger] rest[k]) by {
            assert(p.contains(rest[k]));
            let j = choose|j: int| 0 <= j < p.len() && p[j] == rest[k];
            assert(s[j] == rest[k]);
        }
        if s.last().name != name {
            let r = rest.push(s.last());
            assert(r[rest.len() as int] == s.last());
            assert forall|k: int| 0 <= k < s.len() && #[trigger] s[k].name != name implies r.contains(s[k]) by {
                if k < p.len() {
                    assert(p[k] == s[k]);
                    assert(rest.contains(p[k]));
                    let j = choose|j: int| 0 <= j < rest.len() && rest[j] == p[k];
                    assert(r[j] == s[k]);
                } else {
                    assert(r[rest.len() as int] == s[k]);
                }
            }
            if names_unique(s) {
                assert forall|i: int, j: int| 0 <= i < j < r.len() implies r[i].name != r[j].name by {
                    if j == rest.len() {
                        let x = choose|x: int| 0 <= x < p.len() && p[x] == rest[i];
                        assert(s[x] == r[i]);
                        assert(s[s.len() - 1] == r[j]);
                    } else {
                        assert(r[i] == rest[i] && r[j] == rest[j]);
                    }
                }
            }
        } else {
            assert forall|k: int| 0 <= k < s.len() && #[trigger] s[k].name != name implies rest.contains(s[k]) by {
                assert(p[k] == s[k]);
            }
        }
    }
}

/// After an upsert, names stay unique and `a` is the one entry of its name.
pub proof fn lemma_upsert(s: Seq<AddonModel>, a: AddonModel)
    ensures
        names_unique(s) ==> names_unique(upsert(s, a)),
        upsert(s, a).last() == a,
        forall|k: int| 0 <= k < upsert(s, a).len() - 1 ==> #[trigger] upsert(s, a)[k].name != a.name,
        forall|k: int|
            0 <= k < s.len() && #[trigger] s[k].name != a.name ==> upsert(s, a).contains(s[k]),
        forall|k: int|
            0 <= k < upsert(s, a).len() - 1 ==> s.contains(#[trigger] upsert(s, a)[k]),
{
    lemma_without_name(s, a.name);
    let w = without_name(s, a.name);
    let u = upsert(s, a);
    assert forall|k: int| 0 <= k < u.len() - 1 implies #[trigger] u[k] == w[k] by {}
    assert forall|k: int| 0 <= k < s.len() && #[trigger] s[k].name != a.name implies u.contains(s[k]) by {
        let j = choose|j: int| 0 <= j < w.len() && w[j] == s[k];
        assert(u[j] == s[k]);
    }
    assert forall|k: int| 0 <= k < u.len() - 1 implies s.contains(#[trigger] u[k]) by {
        assert(u[k] == w[k]);
        assert(s.contains(w[k]));
    }
}

impl Config {
    /// An empty manifest of the current format version.
    pub fn new() -> (r: Config)
        ensures
            r@.version == CONFIG_VERSION,
            r@.addons.len() == 0,
    {
        Config { version: CONFIG_VERSION, addons: Vec::new() }
    }

    /// Whether no two entries share a name.
    pub fn has_unique_names(&self) -> (r: bool)
        ensures
            r == names_unique(self@.addons),
    {
        let n = self.addons.len();
        let mut i: usize = 0;
        while i < n
            invariant
                n == self.addons@.len(),
                i <= n,
                forall|a: int, b: int| 0 <= a < b < n && a < i ==> self@.addons[a].name != self@.addons[b].name,
            decreases n - i,
        {
            let mut j: usize = i + 1;
            while j < n
                invariant
                    n == self.addons@.len(),
                    i < n,
                    i < j <= n,
                    forall|a: int, b: int| 0 <= a < b < n && a < i ==> self@.addons[a].name != self@.addons[b].name,
                    forall|b: int| i < b < j ==> self@.addons[i as int].name != self@.addons[b].name,
                decreases n - j,
            {
                if self.addons[i].name == self.addons[j].name {
                    assert(self@.addons[i as int] == self.addons@[i as int]@);
                    assert(self@.addons[j as int] == self.addons@[j as int]@);
                    return false;
                }
                j = j + 1;
            }
            i = i + 1;
        }
        true
    }

    /// Removes every entry named `name`, keeping the others in order.
    pub fn remove_named(&mut self, name: &String)
        ensures
            final(self)@.version == old(self)@.version,
            final(self)@.addons == without_name(old(self)@.addons, name@),
    {
        let ghost orig = old(self)@.addons;
        let mut rest: Vec<Addon> = Vec::new();
        std::mem::swap(&mut self.addons, &mut rest);
        assert(models(rest@) == orig);
        let total_len = rest.len();
        let ghost total = total_len as int;
        let mut k: usize = 0;
        assert(orig.take(0) =~= Seq::<AddonModel>::empty());
        while rest.len() > 0
            invariant
                total == orig.len(),
                total <= usize::MAX,
                k + rest@.len() == total,
                models(rest@) == orig.skip(k as int),
                models(self.addons@) == without_name(orig.take(k as int), name@),
                self.version == old(self)@.version,
            decreases rest@.len(),
        {
            let ghost r0 = rest@;
            let a = rest.remove(0);
            assert(models(r0)[0] == r0[0]@);
            assert(orig.skip(k as int)[0] == orig[k as int]);
            assert(rest@ =~= r0.skip(1));
            assert forall|x: int| 0 <= x < rest@.len() implies #[trigger] models(rest@)[x] == orig.skip(k + 1)[x] by {
                assert(rest@[x] == r0[x + 1]);
                assert(models(r0)[x + 1] == r0[x + 1]@);
            }
            assert(models(rest@) =~= orig.skip(k + 1));
            assert(orig.take(k + 1).drop_last() =~= orig.take(k as int));
            let ghost before = self.addons@;
            if !(a.name == *name) {
                self.addons.push(a);
                assert(models(self.addons@) =~= models(before).push(orig[k as int]));
            }
            k = k + 1;
        }
        assert(orig.take(k as int) =~= orig);
    }

    /// Records `addon`, replacing any entry of the same name; the new entry
    /// goes to the end.
    pub fn upsert(&mut self, addon: Addon)
        ensures
            final(self)@.version == old(self)@.version,
            final(self)@.addons == upsert(old(self)@.addons, addon@),
    {
        self.remove_named(&addon.name);
        let ghost before = self.addons@;
        self.addons.push(addon);
        assert(models(self.addons@) =~= models(before).push(addon@));
    }

    /// The index of the first entry whose name or source equals `query`.
    pub fn find_match(&self, query: &String) -> (r: Option<usize>)
        ensures
            r matches Some(i) ==> first_match(self@.addons, query@) == Some(i as int),
            r is None ==> first_match(self@.addons, query@) is None,
    {
        let n = self.addons.len();
        let mut i: usize = 0;
        while i < n
            invariant
                n == self.addons@.len(),
                i <= n,
                first_match(self@.addons.take(i as int), query@) is None,
            decreases n - i,
        {
            let ghost s = self@.addons;
            assert(s.take(i + 1).drop_last() =~= s.take(i as int));
            if self.addons[i].name == *query || self.addons[i].source == *query {
                proof { lemma_first_match_prefix(s, query@, i + 1); }
                return Some(i);
            }
            i = i + 1;
        }
        assert(self@.addons.take(n as int) =~= self@.addons);
        None
    }

    /// The index of the first entry named `name`.
    pub fn find_named(&self, name: &String) -> (r: Option<usize>)
        ensures
            r matches Some(i) ==> find_name(self@.addons, name@) == Some(i as int),
            r is None ==> find_name(self@.addons, name@) is None,
    {
        let n = self.addons.len();
        let mut i: usize = 0;
        while i < n
            invariant
                n == self.addons@.len(),
                i <= n,
                find_name(self@.addons.take(i as int), name@) is None,
            decreases n - i,
        {
            let ghost s = self@.addons;
            assert(s.take(i + 1).drop_last() =~= s.take(i as int));
            if self.addons[i].name == *name {
                proof { lemma_find_name_prefix(s, name@, i + 1); }
                return Some(i);
            }
            i = i + 1;
        }
        assert(self@.addons.take(n as int) =~= self@.addons);
        None
    }
}

/// Where `first_match` lands.
pub proof fn lemma_first_match(s: Seq<AddonModel>, q: Seq<char>)
    ensures
        first_match(s, q) matches Some(i) ==> 0 <= i < s.len() && (s[i].name == q || s[i].source == q),
        first_match(s, q) is None ==> forall|j: int|
            0 <= j < s.len() ==> #[trigger] s[j].name != q && s[j].source != q,
    decreases s.len(),
{
    if s.len() > 0 {
        lemma_first_match(s.drop_last(), q);
        assert forall|j: int| 0 <= j < s.len() - 1 implies #[trigger] s[j] == s.drop_last()[j] by {}
    }
}

/// A match found in a prefix is the first match of the whole.
proof fn lemma_first_match_prefix(s: Seq<AddonModel>, q: Seq<char>, m: int)
    requires
        0 < m <= s.len(),
        first_match(s.take(m), q) is Some,
    ensures
        first_match(s, q) == first_match(s.take(m), q),
    decreases s.len() - m,
{
    if m < s.len() {
        assert(s.take(m + 1).drop_last() =~= s.take(m));
        lemma_first_match_prefix(s, q, m + 1);
    } else {
        assert(s.take(m) =~= s);
    }
}

/// A name found in a prefix is the first of the whole.
proof fn lemma_find_name_prefix(s: Seq<AddonModel>, n: Seq<char>, m: int)
    requires
        0 < m <= s.len(),
        find_name(s.take(m), n) is Some,
    ensures
        find_name(s, n) == find_name(s.take(m), n),
    decreases s.len() - m,
{
    if m < s.len() {
        assert(s.take(m + 1).drop_last() =~= s.take(m));
        lemma_find_name_prefix(s, n, m + 1);
    } else {
        assert(s.take(m) =~= s);
    }
}

} // verus!
