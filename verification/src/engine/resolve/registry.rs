//! Which registries a command uses.
use vstd::prelude::*;

use super::common::{errs, oks};
use crate::registry::{
    config_lookup, enabled_specs, RegistryConfigView, RegistryConfigs, RegistryId, RegistrySpec,
    RegistrySpecView,
};
use crate::text::{compare_str, lemma_lex_order_antisymmetric, lex_order, str_eq, Order};

verus! {

/// Why the registries could not be determined.
#[derive(Debug)]
pub enum RegistryError {
    RegistryNotFound { reg_id: RegistryId, available_registry_ids: Vec<RegistryId> },
    NoEnabledRegistries,
}

pub enum RegistryErrorView {
    RegistryNotFound { reg_id: Seq<char>, available_registry_ids: Seq<Seq<char>> },
    NoEnabledRegistries,
}

impl View for RegistryError {
    type V = RegistryErrorView;

    open spec fn view(&self) -> RegistryErrorView {
        match self {
            RegistryError::RegistryNotFound { reg_id, available_registry_ids } => RegistryErrorView::RegistryNotFound {
                reg_id: reg_id@,
                available_registry_ids: available_registry_ids@.map_values(|id: RegistryId| id@),
            },
            RegistryError::NoEnabledRegistries => RegistryErrorView::NoEnabledRegistries,
        }
    }
}

pub open spec fn registry_error_views(es: Seq<RegistryError>) -> Seq<RegistryErrorView> {
    es.map_values(|e: RegistryError| e@)
}

pub open spec fn registry_spec_views(rs: Seq<RegistrySpec>) -> Seq<RegistrySpecView> {
    rs.map_values(|r: RegistrySpec| r@)
}

pub open spec fn registry_id_views(ids: Seq<RegistryId>) -> Seq<Seq<char>> {
    ids.map_values(|id: RegistryId| id@)
}

/// `s` with `x` added in order, unless it is there already.
pub open spec fn set_insert(s: Seq<Seq<char>>, x: Seq<char>) -> Seq<Seq<char>>
    decreases s.len(),
{
    if s.len() == 0 {
        seq![x]
    } else if lex_order(x, s[0]) < 0 {
        seq![x] + s
    } else if x == s[0] {
        s
    } else {
        seq![s[0]] + set_insert(s.drop_first(), x)
    }
}

/// The distinct identifiers, in order.
pub open spec fn id_set(ids: Seq<Seq<char>>) -> Seq<Seq<char>>
    decreases ids.len(),
{
    if ids.len() == 0 {
        Seq::empty()
    } else {
        set_insert(id_set(ids.drop_last()), ids.last())
    }
}

proof fn lemma_set_insert_at(s: Seq<Seq<char>>, x: Seq<char>, p: int)
    requires
        0 <= p <= s.len(),
        forall|j: int| 0 <= j < p ==> lex_order(x, #[trigger] s[j]) > 0,
        p < s.len() ==> lex_order(x, s[p]) <= 0,
    ensures
        p < s.len() && s[p] == x ==> set_insert(s, x) == s,
        !(p < s.len() && s[p] == x) ==> set_insert(s, x) == s.insert(p, x),
    decreases p,
{
    if s.len() == 0 {
        assert(s.insert(p, x) =~= seq![x]);
    } else if p == 0 {
        lemma_lex_order_antisymmetric(x, s[0]);
        if s[0] != x {
            assert(s.insert(0, x) =~= seq![x] + s);
        }
    } else {
        let t = s.drop_first();
        lemma_lex_order_antisymmetric(x, s[0]);
        assert forall|j: int| 0 <= j < p - 1 implies lex_order(x, #[trigger] t[j]) > 0 by {
            assert(t[j] == s[j + 1]);
        }
        if p < s.len() {
            assert(t[p - 1] == s[p]);
        }
        lemma_set_insert_at(t, x, p - 1);
        assert(s =~= seq![s[0]] + t);
        assert(s.insert(p, x) =~= seq![s[0]] + t.insert(p - 1, x));
    }
}

/// The distinct registry identifiers, in order.
pub fn registry_id_set(ids: &Vec<RegistryId>) -> (r: Vec<RegistryId>)
    ensures
        registry_id_views(r@) == id_set(registry_id_views(ids@)),
{
    let ghost all = registry_id_views(ids@);
    let mut set: Vec<RegistryId> = Vec::new();
    let mut i: usize = 0;
    while i < ids.len()
        invariant
            i <= ids@.len(),
            all == registry_id_views(ids@),
            registry_id_views(set@) == id_set(all.take(i as int)),
        decreases ids@.len() - i,
    {
        let id = &ids[i];
        let ghost sv = registry_id_views(set@);
        proof {
            assert(all.take(i + 1).drop_last() =~= all.take(i as int));
            assert(all.take(i + 1).last() == id@);
        }
        let mut p: usize = 0;
        while p < set.len() && matches!(compare_str(id.as_str(), set[p].as_str()), Order::Greater)
            invariant
                p <= set@.len(),
                sv == registry_id_views(set@),
                forall|j: int| 0 <= j < p ==> lex_order(id@, #[trigger] sv[j]) > 0,
            decreases set@.len() - p,
        {
            assert(sv[p as int] == set@[p as int]@);
            p = p + 1;
        }
        proof {
            if p < set@.len() {
                assert(sv[p as int] == set@[p as int]@);
            }
            lemma_set_insert_at(sv, id@, p as int);
        }
        if !(p < set.len() && str_eq(id.as_str(), set[p].as_str())) {
            set.insert(p, id.clone());
            proof {
                assert(registry_id_views(set@) =~= sv.insert(p as int, id@));
            }
        } else {
            proof {
                assert(sv[p as int] == set@[p as int]@);
            }
        }
        i = i + 1;
    }
    proof {
        assert(all.take(ids@.len() as int) =~= all);
    }
    set
}

/// Looking up one requested registry.
pub open spec fn registry_lookup(s: Seq<RegistryConfigView>, id: Seq<char>) -> Result<RegistrySpecView, RegistryErrorView> {
    match config_lookup(s, id) {
        Some(c) => Ok(RegistrySpecView { id, source: c.source }),
        None => Err(RegistryErrorView::RegistryNotFound {
            reg_id: id,
            available_registry_ids: s.map_values(|c: RegistryConfigView| c.id),
        }),
    }
}

pub open spec fn registry_lookups(s: Seq<RegistryConfigView>, ids: Seq<Seq<char>>) -> Seq<Result<RegistrySpecView, RegistryErrorView>> {
    ids.map_values(|id: Seq<char>| registry_lookup(s, id))
}

/// The requested registries, each once and in identifier order, whether
/// enabled or not; an error for each one that is not configured.
pub open spec fn registries_by_id(s: Seq<RegistryConfigView>, ids: Seq<Seq<char>>) -> Result<Seq<RegistrySpecView>, Seq<RegistryErrorView>> {
    let rs = registry_lookups(s, id_set(ids));
    if errs(rs).len() > 0 {
        Err(errs(rs))
    } else {
        Ok(oks(rs))
    }
}

/// Resolves the registries named on the command line.
pub fn resolve_registries_by_id(configs: &RegistryConfigs, registry_ids: &Vec<RegistryId>) -> (r: Result<Vec<RegistrySpec>, Vec<RegistryError>>)
    ensures
        match (r, registries_by_id(configs@, registry_id_views(registry_ids@))) {
            (Ok(rs), Ok(vs)) => registry_spec_views(rs@) == vs,
            (Err(es), Err(vs)) => registry_error_views(es@) == vs,
            _ => false,
        },
{
    let set = registry_id_set(registry_ids);
    let ghost sv = registry_id_views(set@);
    let ghost rs = registry_lookups(configs@, sv);
    let mut found: Vec<RegistrySpec> = Vec::new();
    let mut errors: Vec<RegistryError> = Vec::new();
    let mut i: usize = 0;
    while i < set.len()
        invariant
            i <= set@.len(),
            sv == registry_id_views(set@),
            rs == registry_lookups(configs@, sv),
            registry_spec_views(found@) == oks(rs.take(i as int)),
            registry_error_views(errors@) == errs(rs.take(i as int)),
        decreases set@.len() - i,
    {
        proof {
            assert(rs.take(i + 1).drop_last() =~= rs.take(i as int));
            assert(rs.take(i + 1).last() == rs[i as int]);
            assert(sv[i as int] == set@[i as int]@);
        }
        match configs.get(&set[i]) {
            Some(config) => {
                let ghost fv = found@;
                let spec = RegistrySpec { id: set[i].clone(), source: config.source.clone() };
                found.push(spec);
                proof {
                    assert(registry_spec_views(found@) =~= registry_spec_views(fv).push(spec@));
                }
            },
            None => {
                let ghost ev = errors@;
                let available = configs.ids();
                let e = RegistryError::RegistryNotFound { reg_id: set[i].clone(), available_registry_ids: available };
                errors.push(e);
                proof {
                    assert(registry_error_views(errors@) =~= registry_error_views(ev).push(e@));
                }
            },
        }
        i = i + 1;
    }
    proof {
        assert(rs.take(set@.len() as int) =~= rs);
        assert(registry_error_views(errors@).len() == errors@.len());
    }
    if errors.len() > 0 {
        Err(errors)
    } else {
        Ok(found)
    }
}

/// The enabled registries, in identifier order.
pub fn resolve_all_enabled_registries(configs: &RegistryConfigs) -> (r: Vec<RegistrySpec>)
    ensures
        registry_spec_views(r@) == enabled_specs(configs@),
{
    configs.enabled()
}

/// The registries a command uses: those named, or else every enabled one.
pub fn resolve_registries(configs: &RegistryConfigs, registry_ids: Option<&Vec<RegistryId>>) -> (r: Result<Vec<RegistrySpec>, Vec<RegistryError>>)
    ensures
        match registry_ids {
            Some(ids) => match (r, registries_by_id(configs@, registry_id_views(ids@))) {
                (Ok(rs), Ok(vs)) => registry_spec_views(rs@) == vs,
                (Err(es), Err(vs)) => registry_error_views(es@) == vs,
                _ => false,
            },
            None => r matches Ok(rs) && registry_spec_views(rs@) == enabled_specs(configs@),
        },
{
    match registry_ids {
        Some(ids) => resolve_registries_by_id(configs, ids),
        None => Ok(resolve_all_enabled_registries(configs)),
    }
}

/// Refuses an empty list of registries.
pub fn ensure_non_empty_registries(registries: &Vec<RegistrySpec>) -> (r: Result<(), RegistryError>)
    ensures
        r is Ok <==> registries@.len() > 0,
        r matches Err(e) ==> e@ == RegistryErrorView::NoEnabledRegistries,
{
    if registries.len() == 0 {
        Err(RegistryError::NoEnabledRegistries)
    } else {
        Ok(())
    }
}

} // verus!
