//! Package registries: their identifiers and their configuration.
use vstd::prelude::*;

use crate::package::definition::PackageDefinition;
use crate::package::id::{valid_package_id, PackageId, PackageIdView};
use crate::package::name::{is_valid_identifier, valid_identifier, PackageName};
use crate::package::spec::{spec_selects, PackageSpec, PackageSpecView};
use crate::package::version::{semver_is_prerelease, semver_order};
use crate::text::{
    compare_str, lemma_lex_order_antisymmetric, lemma_lex_order_transitive, lex_order, str_eq, Order,
};

verus! {

/// The identifier of a configured package registry, such as `foton`.
#[derive(Debug, PartialEq, Eq, Hash)]
pub struct RegistryId {
    id: String,
}

#[derive(Debug, Clone, PartialEq, Eq)]
pub enum ParseRegistryIdError {
    InvalidFormat { id: String },
}

impl View for RegistryId {
    type V = Seq<char>;

    closed spec fn view(&self) -> Seq<char> {
        self.id@
    }
}

impl RegistryId {
    pub open spec fn wf(&self) -> bool {
        valid_identifier(self@)
    }

    /// Accepts the identifier grammar of package names.
    pub fn new(id: &str) -> (r: Result<RegistryId, ParseRegistryIdError>)
        ensures
            r is Ok <==> valid_identifier(id@),
            r matches Ok(v) ==> v@ == id@ && v.wf(),
            r matches Err(ParseRegistryIdError::InvalidFormat { id: e }) ==> e@ == id@,
    {
        if is_valid_identifier(id) {
            Ok(RegistryId { id: id.to_owned() })
        } else {
            Err(ParseRegistryIdError::InvalidFormat { id: id.to_owned() })
        }
    }

    pub fn as_str(&self) -> (r: &str)
        ensures
            r@ == self@,
    {
        self.id.as_str()
    }
}

impl Clone for RegistryId {
    fn clone(&self) -> (r: Self)
        ensures
            r == *self,
    {
        RegistryId { id: self.id.clone() }
    }
}

/// How a registry is configured: where it is fetched from, and whether it
/// is used when no registry is named.
#[derive(Debug, Clone, PartialEq, Eq)]
pub struct RegistryConfig {
    pub source: String,
    pub enabled: bool,
}

/// A registry to fetch: its identifier and its source.
#[derive(Debug, Clone, PartialEq, Eq)]
pub struct RegistrySpec {
    pub id: RegistryId,
    pub source: String,
}

pub struct RegistrySpecView {
    pub id: Seq<char>,
    pub source: Seq<char>,
}

impl View for RegistrySpec {
    type V = RegistrySpecView;

    open spec fn view(&self) -> RegistrySpecView {
        RegistrySpecView { id: self.id@, source: self.source@ }
    }
}

impl RegistrySpec {
    pub fn id(&self) -> (r: &RegistryId)
        ensures
            r@ == self.id@,
    {
        &self.id
    }
}

/// The configured registries, ordered by identifier, each identifier once.
#[derive(Debug)]
pub struct RegistryConfigs {
    entries: Vec<(RegistryId, RegistryConfig)>,
}

pub struct RegistryConfigView {
    pub id: Seq<char>,
    pub source: Seq<char>,
    pub enabled: bool,
}

pub open spec fn sorted_unique_ids(s: Seq<RegistryConfigView>) -> bool {
    forall|i: int, j: int| 0 <= i < j < s.len() ==> lex_order(#[trigger] s[i].id, #[trigger] s[j].id) < 0
}

impl View for RegistryConfigs {
    type V = Seq<RegistryConfigView>;

    closed spec fn view(&self) -> Seq<RegistryConfigView> {
        self.entries@.map_values(|e: (RegistryId, RegistryConfig)| RegistryConfigView { id: e.0@, source: e.1.source@, enabled: e.1.enabled })
    }
}

/// `s` with `c` put in its place: replacing the entry of the same
/// identifier, or inserted in identifier order.
pub open spec fn config_insert(s: Seq<RegistryConfigView>, c: RegistryConfigView) -> Seq<RegistryConfigView>
    decreases s.len(),
{
    if s.len() == 0 {
        seq![c]
    } else if lex_order(c.id, s[0].id) < 0 {
        seq![c] + s
    } else if c.id == s[0].id {
        seq![c] + s.drop_first()
    } else {
        seq![s[0]] + config_insert(s.drop_first(), c)
    }
}

proof fn lemma_config_insert_at(s: Seq<RegistryConfigView>, c: RegistryConfigView, p: int)
    requires
        0 <= p <= s.len(),
        forall|j: int| 0 <= j < p ==> lex_order(c.id, #[trigger] s[j].id) > 0,
        p < s.len() ==> lex_order(c.id, s[p].id) <= 0,
    ensures
        p < s.len() && s[p].id == c.id ==> config_insert(s, c) == s.update(p, c),
        !(p < s.len() && s[p].id == c.id) ==> config_insert(s, c) == s.insert(p, c),
    decreases p,
{
    lemma_lex_order_antisymmetric(c.id, if p < s.len() { s[p].id } else { c.id });
    if s.len() == 0 {
        assert(s.insert(p, c) =~= seq![c]);
    } else if p == 0 {
        lemma_lex_order_antisymmetric(c.id, s[0].id);
        if s[0].id == c.id {
            assert(s.update(0, c) =~= seq![c] + s.drop_first());
        } else {
            assert(s.insert(0, c) =~= seq![c] + s);
        }
    } else {
        let t = s.drop_first();
        lemma_lex_order_antisymmetric(c.id, s[0].id);
        assert forall|j: int| 0 <= j < p - 1 implies lex_order(c.id, #[trigger] t[j].id) > 0 by {
            assert(t[j] == s[j + 1]);
        }
        if p < s.len() {
            assert(t[p - 1] == s[p]);
        }
        lemma_config_insert_at(t, c, p - 1);
        if p < s.len() {
            assert(s.update(p, c) =~= seq![s[0]] + t.update(p - 1, c));
        }
        assert(s.insert(p, c) =~= seq![s[0]] + t.insert(p - 1, c));
    }
}

impl RegistryConfigs {
    pub open spec fn wf(&self) -> bool {
        sorted_unique_ids(self@)
    }

    pub fn new() -> (r: RegistryConfigs)
        ensures
            r@ == Seq::<RegistryConfigView>::empty(),
            r.wf(),
    {
        let r = RegistryConfigs { entries: Vec::new() };
        assert(r@ =~= Seq::<RegistryConfigView>::empty());
        r
    }

    pub fn len(&self) -> (r: usize)
        ensures
            r == self@.len(),
    {
        self.entries.len()
    }

    /// Sets the configuration of a registry, replacing an earlier one.
    pub fn insert(&mut self, id: RegistryId, config: RegistryConfig)
        requires
            old(self).wf(),
        ensures
            final(self).wf(),
            final(self)@ == config_insert(old(self)@, RegistryConfigView { id: id@, source: config.source@, enabled: config.enabled }),
    {
        let ghost s = self@;
        let ghost c = RegistryConfigView { id: id@, source: config.source@, enabled: config.enabled };
        let mut p: usize = 0;
        while p < self.entries.len() && matches!(compare_str(id.as_str(), self.entries[p].0.as_str()), Order::Greater)
            invariant
                p <= s.len(),
                s == self@,
                self.entries@.len() == s.len(),
                forall|j: int| 0 <= j < p ==> lex_order(c.id, #[trigger] s[j].id) > 0,
                c.id == id@,
            decreases s.len() - p,
        {
            assert(s[p as int].id == self.entries@[p as int].0@);
            p = p + 1;
        }
        proof {
            if p < s.len() {
                assert(s[p as int].id == self.entries@[p as int].0@);
            }
            lemma_config_insert_at(s, c, p as int);
        }
        if p < self.entries.len() && str_eq(id.as_str(), self.entries[p].0.as_str()) {
            self.entries.set(p, (id, config));
            proof {
                assert(self@ =~= s.update(p as int, c));
            }
        } else {
            self.entries.insert(p, (id, config));
            proof {
                assert(self@ =~= s.insert(p as int, c));
            }
        }
        proof {
            let t = self@;
            lemma_config_insert_sorted(s, c, p as int);
        }
    }

    /// The registry configured under `id`.
    pub fn get(&self, id: &RegistryId) -> (r: Option<&RegistryConfig>)
        ensures
            match (r, config_lookup(self@, id@)) {
                (Some(c), Some(v)) => v.source == c.source@ && v.enabled == c.enabled,
                (None, None) => true,
                _ => false,
            },
    {
        let mut i: usize = 0;
        assert(self@.skip(0) =~= self@);
        while i < self.entries.len()
            invariant
                i <= self@.len(),
                self.entries@.len() == self@.len(),
                config_lookup(self@, id@) == config_lookup(self@.skip(i as int), id@),
            decreases self@.len() - i,
        {
            proof {
                assert(self@.skip(i as int).drop_first() =~= self@.skip(i + 1));
                assert(self@.skip(i as int)[0] == self@[i as int]);
            }
            if str_eq(self.entries[i].0.as_str(), id.as_str()) {
                return Some(&self.entries[i].1);
            }
            i = i + 1;
        }
        None
    }

    /// The configured identifiers, in order.
    pub fn ids(&self) -> (r: Vec<RegistryId>)
        ensures
            r@.map_values(|id: RegistryId| id@) == self@.map_values(|c: RegistryConfigView| c.id),
    {
        let mut r: Vec<RegistryId> = Vec::new();
        let mut i: usize = 0;
        while i < self.entries.len()
            invariant
                i <= self@.len(),
                self.entries@.len() == self@.len(),
                r@.map_values(|id: RegistryId| id@) == self@.take(i as int).map_values(|c: RegistryConfigView| c.id),
            decreases self@.len() - i,
        {
            let ghost rv = r@;
            r.push(self.entries[i].0.clone());
            proof {
                assert(r@.map_values(|id: RegistryId| id@) =~= rv.map_values(|id: RegistryId| id@).push(self@[i as int].id));
                assert(self@.take(i + 1).map_values(|c: RegistryConfigView| c.id) =~= self@.take(i as int).map_values(|c: RegistryConfigView| c.id).push(self@[i as int].id));
            }
            i = i + 1;
        }
        proof {
            assert(self@.take(self@.len() as int) =~= self@);
        }
        r
    }

    /// The enabled registries, in identifier order.
    pub fn enabled(&self) -> (r: Vec<RegistrySpec>)
        ensures
            r@.map_values(|s: RegistrySpec| s@) == enabled_specs(self@),
    {
        let mut r: Vec<RegistrySpec> = Vec::new();
        let mut i: usize = 0;
        while i < self.entries.len()
            invariant
                i <= self@.len(),
                self.entries@.len() == self@.len(),
                r@.map_values(|s: RegistrySpec| s@) == enabled_specs(self@.take(i as int)),
            decreases self@.len() - i,
        {
            proof {
                assert(self@.take(i + 1).drop_last() =~= self@.take(i as int));
                assert(self@.take(i + 1).last() == self@[i as int]);
            }
            if self.entries[i].1.enabled {
                let ghost rv = r@;
                let spec = RegistrySpec { id: self.entries[i].0.clone(), source: self.entries[i].1.source.clone() };
                r.push(spec);
                proof {
                    assert(r@.map_values(|s: RegistrySpec| s@) =~= rv.map_values(|s: RegistrySpec| s@).push(spec@));
                }
            }
            i = i + 1;
        }
        proof {
            assert(self@.take(self@.len() as int) =~= self@);
        }
        r
    }
}

proof fn lemma_config_insert_sorted(s: Seq<RegistryConfigView>, c: RegistryConfigView, p: int)
    requires
        sorted_unique_ids(s),
        0 <= p <= s.len(),
        forall|j: int| 0 <= j < p ==> lex_order(c.id, #[trigger] s[j].id) > 0,
        p < s.len() ==> lex_order(c.id, s[p].id) <= 0,
    ensures
        sorted_unique_ids(config_insert(s, c)),
{
    lemma_config_insert_at(s, c, p);
    let t = config_insert(s, c);
    if p < s.len() && s[p].id == c.id {
        assert(t == s.update(p, c));
        assert forall|i: int, j: int| 0 <= i < j < t.len() implies lex_order(#[trigger] t[i].id, #[trigger] t[j].id) < 0 by {
            assert(t[i].id == s[i].id);
            assert(t[j].id == s[j].id);
        }
    } else {
        assert(t == s.insert(p, c));
        if p < s.len() {
            lemma_lex_order_antisymmetric(c.id, s[p].id);
        }
        assert forall|i: int, j: int| 0 <= i < j < t.len() implies lex_order(#[trigger] t[i].id, #[trigger] t[j].id) < 0 by {
            if j < p {
                assert(t[i] == s[i] && t[j] == s[j]);
            } else if j == p {
                assert(t[i] == s[i] && t[j] == c);
                lemma_lex_order_antisymmetric(c.id, s[i].id);
            } else if i < p {
                assert(t[i] == s[i] && t[j] == s[j - 1]);
            } else if i == p {
                assert(t[i] == c && t[j] == s[j - 1]);
                if j - 1 > p {
                    assert(lex_order(s[p].id, s[j - 1].id) < 0);
                    lemma_lex_order_transitive(c.id, s[p].id, s[j - 1].id);
                }
            } else {
                assert(t[i] == s[i - 1] && t[j] == s[j - 1]);
            }
        }
    }
}

/// The enabled configurations as registry specs, in order.
pub open spec fn enabled_specs(s: Seq<RegistryConfigView>) -> Seq<RegistrySpecView>
    decreases s.len(),
{
    if s.len() == 0 {
        Seq::empty()
    } else if s.last().enabled {
        enabled_specs(s.drop_last()).push(RegistrySpecView { id: s.last().id, source: s.last().source })
    } else {
        enabled_specs(s.drop_last())
    }
}

/// The configuration of the first registry with the identifier `id`.
pub open spec fn config_lookup(s: Seq<RegistryConfigView>, id: Seq<char>) -> Option<RegistryConfigView>
    decreases s.len(),
{
    if s.len() == 0 {
        None
    } else if s[0].id == id {
        Some(s[0])
    } else {
        config_lookup(s.drop_first(), id)
    }
}

/// Whether a registry package counts for a specifier: selected by it, and,
/// unless pre-releases are asked for or the specifier names an exact ID,
/// not a pre-release.
pub open spec fn registry_candidate(id: PackageIdView, spec: PackageSpecView, include_pre_release: bool) -> bool {
    spec_selects(spec, id) && (include_pre_release || spec is Id || !semver_is_prerelease(id.1))
}

/// The index of the latest candidate among the first `n`: a later one
/// replaces the best so far unless it is older.
pub open spec fn latest_candidate(ids: Seq<PackageIdView>, spec: PackageSpecView, include_pre_release: bool, n: int) -> Option<int>
    decreases n,
{
    if n <= 0 {
        None
    } else {
        let best = latest_candidate(ids, spec, include_pre_release, n - 1);
        if registry_candidate(ids[n - 1], spec, include_pre_release) && (best is None || semver_order(
            ids[n - 1].1,
            ids[best->0].1,
        ) >= 0) {
            Some(n - 1)
        } else {
            best
        }
    }
}

/// The latest candidate is a candidate among the first `n`.
pub proof fn lemma_latest_candidate_is_candidate(
    ids: Seq<PackageIdView>,
    spec: PackageSpecView,
    include_pre_release: bool,
    n: int,
)
    requires
        n <= ids.len(),
    ensures
        latest_candidate(ids, spec, include_pre_release, n) matches Some(i) ==> 0 <= i < n && registry_candidate(
            ids[i],
            spec,
            include_pre_release,
        ),
    decreases n,
{
    if n > 0 {
        lemma_latest_candidate_is_candidate(ids, spec, include_pre_release, n - 1);
    }
}

/// The packages a registry offers, as loaded from its files.
#[derive(Debug)]
pub struct RegistryIndex {
    id: RegistryId,
    packages: Vec<PackageDefinition>,
}

impl RegistryIndex {
    pub closed spec fn id_view(&self) -> Seq<char> {
        self.id@
    }

    /// The packages, in order.
    pub closed spec fn definitions(&self) -> Seq<PackageDefinition> {
        self.packages@
    }

    /// The IDs of the packages, in order.
    pub open spec fn package_ids(&self) -> Seq<PackageIdView> {
        self.definitions().map_values(|p: PackageDefinition| p.id@)
    }

    pub open spec fn wf(&self) -> bool {
        forall|k: int| 0 <= k < self.package_ids().len() ==> valid_package_id(#[trigger] self.package_ids()[k])
    }

    pub fn new(id: RegistryId, packages: Vec<PackageDefinition>) -> (r: RegistryIndex)
        ensures
            r.id_view() == id@,
            r.definitions() == packages@,
    {
        RegistryIndex { id, packages }
    }

    pub fn id(&self) -> (r: &RegistryId)
        ensures
            r@ == self.id_view(),
    {
        &self.id
    }

    /// The latest package that the specifier selects; pre-releases only
    /// when asked for or named by an exact ID.
    pub fn find_latest_package_by_spec(&self, spec: &PackageSpec, include_pre_release: bool) -> (r: Option<&PackageDefinition>)
        requires
            self.wf(),
        ensures
            match (r, latest_candidate(self.package_ids(), spec@, include_pre_release, self.package_ids().len() as int)) {
                (Some(p), Some(i)) => *p == self.definitions()[i] && p.wf(),
                (None, None) => true,
                _ => false,
            },
            r is None <==> forall|k: int|
                0 <= k < self.package_ids().len() ==> !registry_candidate(
                    #[trigger] self.package_ids()[k],
                    spec@,
                    include_pre_release,
                ),
            r matches Some(p) ==> exists|i: int|
                0 <= i < self.package_ids().len() && *p == self.definitions()[i] && registry_candidate(
                    #[trigger] self.package_ids()[i],
                    spec@,
                    include_pre_release,
                ),
            r matches Some(p) ==> forall|k: int|
                0 <= k < self.package_ids().len() && registry_candidate(#[trigger] self.package_ids()[k], spec@, include_pre_release)
                    && self.package_ids()[k].1 != p.id@.1 ==> semver_order(self.package_ids()[k].1, p.id@.1) <= 0,
    {
        let ghost ids = self.package_ids();
        let mut best: Option<usize> = None;
        let mut i: usize = 0;
        while i < self.packages.len()
            invariant
                i <= ids.len(),
                ids == self.package_ids(),
                self.wf(),
                self.packages@.len() == ids.len(),
                match (best, latest_candidate(ids, spec@, include_pre_release, i as int)) {
                    (Some(b), Some(v)) => b < i && b == v,
                    (None, None) => true,
                    _ => false,
                },
                best matches Some(b) ==> registry_candidate(ids[b as int], spec@, include_pre_release),
                forall|k: int|
                    0 <= k < i && registry_candidate(#[trigger] ids[k], spec@, include_pre_release) ==> (best matches Some(b)
                        && (ids[k].1 == ids[b as int].1 || semver_order(ids[k].1, ids[b as int].1) <= 0)),
            decreases ids.len() - i,
        {
            let id = &self.packages[i].id;
            proof {
                assert(id@ == ids[i as int]);
                assert(valid_package_id(ids[i as int]));
            }
            let candidate = spec.selects(id) && (include_pre_release || matches!(spec, PackageSpec::Id(_)) || !id.version().is_prerelease());
            if candidate {
                let replace = match best {
                    None => true,
                    Some(b) => {
                        proof {
                            assert(self.packages@[b as int].id@ == ids[b as int]);
                            assert(valid_package_id(ids[b as int]));
                        }
                        !matches!(id.version().compare(self.packages[b].id.version()), crate::text::Order::Less)
                    },
                };
                if replace {
                    best = Some(i);
                }
            }
            i = i + 1;
        }
        match best {
            Some(b) => {
                proof {
                    assert(self.packages@[b as int].id@ == ids[b as int]);
                }
                Some(&self.packages[b])
            },
            None => None,
        }
    }

    /// The latest package of the given name.
    pub fn find_latest_package_by_name(&self, name: &PackageName, include_pre_release: bool) -> (r: Option<&PackageDefinition>)
        requires
            self.wf(),
        ensures
            match (r, latest_candidate(self.package_ids(), PackageSpecView::Name(name@), include_pre_release, self.package_ids().len() as int)) {
                (Some(p), Some(i)) => *p == self.definitions()[i] && p.wf(),
                (None, None) => true,
                _ => false,
            },
            r is None <==> forall|k: int|
                0 <= k < self.package_ids().len() ==> !registry_candidate(
                    #[trigger] self.package_ids()[k],
                    PackageSpecView::Name(name@),
                    include_pre_release,
                ),
            r matches Some(p) ==> forall|k: int|
                0 <= k < self.package_ids().len() && registry_candidate(
                    #[trigger] self.package_ids()[k],
                    PackageSpecView::Name(name@),
                    include_pre_release,
                ) && self.package_ids()[k].1 != p.id@.1 ==> semver_order(self.package_ids()[k].1, p.id@.1) <= 0,
    {
        let spec = PackageSpec::Name(name.clone());
        self.find_latest_package_by_spec(&spec, include_pre_release)
    }
}

} // verus!
