//! How well a package answers a text search: the strongest match among its
//! name, display name, aliases and description.
use vstd::prelude::*;

use super::definition::PackageDefinition;

verus! {

/// How a text matched a query, as ranks where a larger number is a stronger
/// match: first by the form of the match, then by its kind.
#[derive(Debug, Clone, Copy, PartialEq, Eq, Structural)]
pub struct TextMatch {
    pub form: u32,
    pub kind: u32,
}

/// The field of a definition that matched, from the weakest to the
/// strongest.
#[derive(Debug, Clone, Copy, PartialEq, Eq, Structural)]
pub enum PackageDefinitionField {
    Description,
    Aliases,
    DisplayName,
    Name,
}

pub open spec fn field_rank(f: PackageDefinitionField) -> int {
    match f {
        PackageDefinitionField::Description => 0,
        PackageDefinitionField::Aliases => 1,
        PackageDefinitionField::DisplayName => 2,
        PackageDefinitionField::Name => 3,
    }
}

#[derive(Debug, Clone, Copy, PartialEq, Eq, Structural)]
pub struct PackageMatchResult {
    pub form: u32,
    pub kind: u32,
    pub field: PackageDefinitionField,
}

/// `a` is a weaker match than `b`: compared by form, then kind, then field.
pub open spec fn weaker(a: PackageMatchResult, b: PackageMatchResult) -> bool {
    ||| a.form < b.form
    ||| a.form == b.form && a.kind < b.kind
    ||| a.form == b.form && a.kind == b.kind && field_rank(a.field) < field_rank(b.field)
}

/// The stronger of two optional matches; any match beats none.
pub open spec fn stronger(a: Option<PackageMatchResult>, b: Option<PackageMatchResult>) -> Option<
    PackageMatchResult,
> {
    match (a, b) {
        (None, _) => b,
        (_, None) => a,
        (Some(x), Some(y)) => if weaker(y, x) {
            a
        } else {
            b
        },
    }
}

/// The strongest of a sequence of optional matches.
pub open spec fn strongest(ms: Seq<Option<PackageMatchResult>>) -> Option<PackageMatchResult>
    decreases ms.len(),
{
    if ms.len() == 0 {
        None
    } else {
        stronger(strongest(ms.drop_last()), ms.last())
    }
}

/// The strongest match is one of the candidates, and no candidate is
/// stronger; there is none only when no candidate matched.
pub proof fn law_strongest_match_is_maximal(ms: Seq<Option<PackageMatchResult>>)
    ensures
        strongest(ms) is None <==> forall|i: int| 0 <= i < ms.len() ==> ms[i] is None,
        strongest(ms) matches Some(m) ==> exists|i: int| 0 <= i < ms.len() && ms[i] == Some(m),
        strongest(ms) matches Some(m) ==> forall|i: int|
            0 <= i < ms.len() ==> (#[trigger] ms[i] matches Some(x) ==> !weaker(m, x)),
    decreases ms.len(),
{
    if ms.len() > 0 {
        let init = ms.drop_last();
        law_strongest_match_is_maximal(init);
        assert forall|i: int| 0 <= i < init.len() implies init[i] == ms[i] by {}
        let best = strongest(init);
        let last = ms.last();
        if best is None {
            if last is None {
                assert forall|i: int| 0 <= i < ms.len() implies ms[i] is None by {
                    if i < init.len() {
                        assert(init[i] is None);
                    }
                }
            }
        }
        if let Some(m) = strongest(ms) {
            if last is Some && strongest(ms) == last {
                assert(ms[ms.len() - 1] == Some(m));
            } else {
                let i = choose|i: int| 0 <= i < init.len() && init[i] == Some(m);
                assert(ms[i] == Some(m));
            }
            assert forall|i: int| 0 <= i < ms.len() implies (#[trigger] ms[i] matches Some(x) ==> !weaker(m, x)) by {
                if i < init.len() {
                    assert(init[i] == ms[i]);
                }
            }
        }
    }
}

pub open spec fn in_field(m: Option<TextMatch>, field: PackageDefinitionField) -> Option<PackageMatchResult> {
    match m {
        Some(t) => Some(PackageMatchResult { form: t.form, kind: t.kind, field }),
        None => None,
    }
}

pub open spec fn alias_results(aliases: Seq<Option<TextMatch>>) -> Seq<Option<PackageMatchResult>> {
    aliases.map_values(|m: Option<TextMatch>| in_field(m, PackageDefinitionField::Aliases))
}

/// The candidates of a definition, in the order they are weighed: name,
/// display name, each alias, description.
pub open spec fn match_candidates(
    name: Option<TextMatch>,
    display_name: Option<TextMatch>,
    aliases: Seq<Option<TextMatch>>,
    description: Option<TextMatch>,
) -> Seq<Option<PackageMatchResult>> {
    seq![in_field(name, PackageDefinitionField::Name), in_field(display_name, PackageDefinitionField::DisplayName)]
        + alias_results(aliases) + seq![in_field(description, PackageDefinitionField::Description)]
}

fn field_less(a: PackageDefinitionField, b: PackageDefinitionField) -> (r: bool)
    ensures
        r == (field_rank(a) < field_rank(b)),
{
    let ra: u8 = match a {
        PackageDefinitionField::Description => 0,
        PackageDefinitionField::Aliases => 1,
        PackageDefinitionField::DisplayName => 2,
        PackageDefinitionField::Name => 3,
    };
    let rb: u8 = match b {
        PackageDefinitionField::Description => 0,
        PackageDefinitionField::Aliases => 1,
        PackageDefinitionField::DisplayName => 2,
        PackageDefinitionField::Name => 3,
    };
    ra < rb
}

fn choose_stronger(a: Option<PackageMatchResult>, b: Option<PackageMatchResult>) -> (r: Option<
    PackageMatchResult,
>)
    ensures
        r == stronger(a, b),
{
    match (a, b) {
        (None, _) => b,
        (_, None) => a,
        (Some(x), Some(y)) => {
            let y_weaker = y.form < x.form || (y.form == x.form && y.kind < x.kind) || (y.form == x.form
                && y.kind == x.kind && field_less(y.field, x.field));
            if y_weaker {
                a
            } else {
                b
            }
        },
    }
}

fn with_field(m: Option<TextMatch>, field: PackageDefinitionField) -> (r: Option<PackageMatchResult>)
    ensures
        r == in_field(m, field),
{
    match m {
        Some(t) => Some(PackageMatchResult { form: t.form, kind: t.kind, field }),
        None => None,
    }
}

/// The strongest match among the matches of a definition's fields.
pub fn best_package_match(
    name: Option<TextMatch>,
    display_name: Option<TextMatch>,
    aliases: &Vec<Option<TextMatch>>,
    description: Option<TextMatch>,
) -> (r: Option<PackageMatchResult>)
    ensures
        r == strongest(match_candidates(name, display_name, aliases@, description)),
{
    let ghost cands = match_candidates(name, display_name, aliases@, description);
    let mut best = with_field(name, PackageDefinitionField::Name);
    assert(cands.take(1).drop_last() =~= Seq::<Option<PackageMatchResult>>::empty());
    assert(cands[0] == in_field(name, PackageDefinitionField::Name));
    assert(cands[1] == in_field(display_name, PackageDefinitionField::DisplayName));
    assert(cands.take(1).last() == cands[0]);
    assert(strongest(Seq::<Option<PackageMatchResult>>::empty()) is None);
    assert(strongest(cands.take(1)) == best);
    best = choose_stronger(best, with_field(display_name, PackageDefinitionField::DisplayName));
    assert(cands.take(2).drop_last() =~= cands.take(1));
    assert(cands.take(2).last() == cands[1]);
    let mut i: usize = 0;
    while i < aliases.len()
        invariant
            i <= aliases@.len(),
            cands == match_candidates(name, display_name, aliases@, description),
            best == strongest(cands.take(2 + i)),
        decreases aliases@.len() - i,
    {
        best = choose_stronger(best, with_field(aliases[i], PackageDefinitionField::Aliases));
        assert(cands.take(2 + i + 1).drop_last() =~= cands.take(2 + i));
        assert(cands[2 + i] == in_field(aliases@[i as int], PackageDefinitionField::Aliases));
        assert(cands.take(2 + i + 1).last() == cands[2 + i]);
        i = i + 1;
    }
    best = choose_stronger(best, with_field(description, PackageDefinitionField::Description));
    assert(cands.take(cands.len() as int).drop_last() =~= cands.take(2 + aliases@.len() as int));
    assert(cands.take(cands.len() as int) =~= cands);
    assert(cands.last() == in_field(description, PackageDefinitionField::Description));
    best
}

/// `f` gave `m` for a text with the view `text`.
pub open spec fn answered<F: Fn(&str) -> Option<TextMatch>>(f: F, text: Seq<char>, m: Option<TextMatch>) -> bool {
    exists|s: &str| s@ == text && #[trigger] call_ensures(f, (s,), m)
}

/// `r` is the strongest of the matches `n`, `d`, `a` and `e`, which `f` gave
/// for the name, display name, aliases and description of `def`; a missing
/// field gives no match.
pub open spec fn match_outcome<F: Fn(&str) -> Option<TextMatch>>(
    f: F,
    def: PackageDefinition,
    n: Option<TextMatch>,
    d: Option<TextMatch>,
    a: Seq<Option<TextMatch>>,
    e: Option<TextMatch>,
    r: Option<PackageMatchResult>,
) -> bool {
    &&& answered(f, def.id@.0, n)
    &&& match def.display_name {
        Some(t) => answered(f, t@, d),
        None => d is None,
    }
    &&& a.len() == def.aliases@.len()
    &&& forall|i: int| 0 <= i < a.len() ==> answered(f, def.aliases@[i]@, #[trigger] a[i])
    &&& match def.description {
        Some(t) => answered(f, t@, e),
        None => e is None,
    }
    &&& r == strongest(match_candidates(n, d, a, e))
}

impl PackageDefinition {
    /// Matches each field of the definition with `match_text` and keeps the
    /// strongest match, whatever `match_text` answers.
    pub fn match_package<F: Fn(&str) -> Option<TextMatch>>(&self, match_text: F) -> (r: Option<
        PackageMatchResult,
    >)
        requires
            forall|s: &str| match_text.requires((s,)),
        ensures
            exists|n: Option<TextMatch>, d: Option<TextMatch>, a: Seq<Option<TextMatch>>, e: Option<TextMatch>|
                #[trigger] match_outcome(match_text, *self, n, d, a, e, r),
    {
        let name_text = self.id.name().as_str();
        let name = match_text(name_text);
        let display_name = match &self.display_name {
            Some(t) => match_text(t.as_str()),
            None => None,
        };
        let mut aliases: Vec<Option<TextMatch>> = Vec::new();
        let mut i: usize = 0;
        while i < self.aliases.len()
            invariant
                i <= self.aliases@.len(),
                aliases@.len() == i,
                forall|s: &str| match_text.requires((s,)),
                forall|j: int| 0 <= j < i ==> answered(match_text, self.aliases@[j]@, #[trigger] aliases@[j]),
            decreases self.aliases@.len() - i,
        {
            let text = self.aliases[i].as_str();
            let m = match_text(text);
            aliases.push(m);
            assert(answered(match_text, self.aliases@[i as int]@, aliases@[i as int]));
            i = i + 1;
        }
        let description = match &self.description {
            Some(t) => match_text(t.as_str()),
            None => None,
        };
        let r = best_package_match(name, display_name, &aliases, description);
        assert(match_outcome(match_text, *self, name, display_name, aliases@, description, r));
        r
    }
}

} // verus!
