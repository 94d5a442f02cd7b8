//! Real-part validation: every component an intent proposes must resolve
//! to an in-stock manufacturer part before the intent counts as valid.

use vstd::prelude::*;
use crate::ai::intent::{
    component_views, CircuitIntent, ComponentRequest, ComponentView, Distributor,
};
use crate::text::{chars_of, concat, contains_sub, spec_contains_sub, spec_to_lowercase, to_lowercase, to_string};

verus! {

/// Why an intent failed validation.
#[derive(Debug, Clone, PartialEq, Eq)]
pub enum ValidationError {
    /// No catalog part matches the component's function.
    UnmatchedPart { function: String },
    /// The part is out of stock at the distributor.
    OutOfStock { mpn: String, distributor: Distributor },
    /// The part is not recommended for new designs, or obsolete.
    ObsoletePart { mpn: String },
}

/// The name a distributor is shown by.
pub open spec fn distributor_name(d: Distributor) -> Seq<char> {
    match d {
        Distributor::Lcsc => "Lcsc"@,
        Distributor::DigiKey => "DigiKey"@,
        Distributor::Mouser => "Mouser"@,
    }
}

fn distributor_name_exec(d: Distributor) -> (r: &'static str)
    ensures
        r@ == distributor_name(d),
{
    match d {
        Distributor::Lcsc => "Lcsc",
        Distributor::DigiKey => "DigiKey",
        Distributor::Mouser => "Mouser",
    }
}

impl ValidationError {
    /// The human-readable description of the error.
    pub fn message(&self) -> (r: String)
        ensures
            r@ == match self {
                ValidationError::UnmatchedPart { function } => "Component '"@ + function@
                    + "' has no verified manufacturer part number (MPN)"@,
                ValidationError::OutOfStock { mpn, distributor } => "Part '"@ + mpn@
                    + "' is currently Out of Stock at distributor "@ + distributor_name(
                    *distributor,
                ),
                ValidationError::ObsoletePart { mpn } => "Part '"@ + mpn@
                    + "' is marked Not Recommended for New Designs (NRND) or Obsolete"@,
            },
    {
        match self {
            ValidationError::UnmatchedPart { function } => {
                let a = concat("Component '", function.as_str());
                concat(a.as_str(), "' has no verified manufacturer part number (MPN)")
            },
            ValidationError::OutOfStock { mpn, distributor } => {
                let a = concat("Part '", mpn.as_str());
                let b = concat(a.as_str(), "' is currently Out of Stock at distributor ");
                concat(b.as_str(), distributor_name_exec(*distributor))
            },
            ValidationError::ObsoletePart { mpn } => {
                let a = concat("Part '", mpn.as_str());
                concat(a.as_str(), "' is marked Not Recommended for New Designs (NRND) or Obsolete")
            },
        }
    }
}

/// A catalog that resolves a component function to an in-stock part:
/// manufacturer part number, distributor and quantity in stock.
pub trait PartLookupService {
    /// The part the catalog resolves `function` to, if any.
    spec fn spec_lookup(&self, function: Seq<char>) -> Option<(Seq<char>, Distributor, u64)>;

    fn find_in_stock_part(&self, function: &str) -> (r: Option<(String, Distributor, u64)>)
        ensures
            match r {
                Some(t) => self.spec_lookup(function@) == Some((t.0@, t.1, t.2)),
                None => self.spec_lookup(function@) is None,
            },
    ;
}

/// An in-memory catalog: entries of lower-case keyword, manufacturer part
/// number, distributor and stock, searched in order.
#[derive(Debug)]
pub struct StandardCatalogService {
    parts: Vec<(String, String, Distributor, u64)>,
}

/// The first entry whose keyword occurs in the lower-cased function, as
/// `(part number, distributor, stock)`.
pub open spec fn first_match(
    entries: Seq<(Seq<char>, Seq<char>, Distributor, u64)>,
    function_lower: Seq<char>,
) -> Option<(Seq<char>, Distributor, u64)>
    decreases entries.len(),
{
    if entries.len() == 0 {
        None
    } else if spec_contains_sub(function_lower, entries[0].0) {
        Some((entries[0].1, entries[0].2, entries[0].3))
    } else {
        first_match(entries.drop_first(), function_lower)
    }
}

/// A catalog entry for a keyword, stored in lower case.
pub open spec fn catalog_entry(keyword: Seq<char>, mpn: Seq<char>, distributor: Distributor, stock: u64) -> (
    Seq<char>,
    Seq<char>,
    Distributor,
    u64,
) {
    (spec_to_lowercase(keyword), mpn, distributor, stock)
}

/// The parts a standard catalog is seeded with.
pub open spec fn seeded_catalog() -> Seq<(Seq<char>, Seq<char>, Distributor, u64)> {
    seq![
        catalog_entry("ESP32-S3"@, "ESP32-S3-WROOM-1-N8R8"@, Distributor::Lcsc, 14200),
        catalog_entry("TP4056"@, "TP4056-42-ESOP8"@, Distributor::Lcsc, 85000),
        catalog_entry("BMP280"@, "BMP280"@, Distributor::DigiKey, 4300),
        catalog_entry("USB-C"@, "TYPE-C-16PIN-SMD"@, Distributor::Lcsc, 120000),
        catalog_entry("AMS1117-3.3"@, "AMS1117-3.3V-SOT-223"@, Distributor::Lcsc, 250000),
    ]
}

impl View for StandardCatalogService {
    type V = Seq<(Seq<char>, Seq<char>, Distributor, u64)>;

    closed spec fn view(&self) -> Seq<(Seq<char>, Seq<char>, Distributor, u64)> {
        self.parts@.map_values(
            |p: (String, String, Distributor, u64)| (p.0@, p.1@, p.2, p.3),
        )
    }
}

impl StandardCatalogService {
    /// A catalog seeded with common maker and professional ICs (see
    /// [`seeded_catalog`]).
    pub fn new() -> (r: Self)
        ensures
            r@ == seeded_catalog(),
    {
        let mut svc = StandardCatalogService { parts: Vec::new() };
        assert(svc@ =~= Seq::empty());
        svc.register("ESP32-S3", "ESP32-S3-WROOM-1-N8R8", Distributor::Lcsc, 14200);
        svc.register("TP4056", "TP4056-42-ESOP8", Distributor::Lcsc, 85000);
        svc.register("BMP280", "BMP280", Distributor::DigiKey, 4300);
        svc.register("USB-C", "TYPE-C-16PIN-SMD", Distributor::Lcsc, 120000);
        svc.register("AMS1117-3.3", "AMS1117-3.3V-SOT-223", Distributor::Lcsc, 250000);
        assert(svc@ =~= seeded_catalog());
        svc
    }

    /// Appends an entry; its keyword is stored in lower case.
    pub fn register(&mut self, keyword: &str, mpn: &str, distributor: Distributor, stock: u64)
        ensures
            final(self)@ == old(self)@.push(catalog_entry(keyword@, mpn@, distributor, stock)),
    {
        self.parts.push((to_lowercase(keyword), to_string(mpn), distributor, stock));
        assert(self@ =~= old(self)@.push(catalog_entry(keyword@, mpn@, distributor, stock)));
    }
}

impl Default for StandardCatalogService {
    fn default() -> (r: Self)
        ensures
            r@ == Seq::<(Seq<char>, Seq<char>, Distributor, u64)>::empty(),
    {
        let r = StandardCatalogService { parts: Vec::new() };
        assert(r@ =~= Seq::<(Seq<char>, Seq<char>, Distributor, u64)>::empty());
        r
    }
}

impl PartLookupService for StandardCatalogService {
    open spec fn spec_lookup(&self, function: Seq<char>) -> Option<(Seq<char>, Distributor, u64)> {
        first_match(self@, spec_to_lowercase(function))
    }

    /// The first entry (in registration order) whose keyword occurs in
    /// the lower-cased function.
    fn find_in_stock_part(&self, function: &str) -> (r: Option<(String, Distributor, u64)>) {
        let lower = to_lowercase(function);
        let hay = chars_of(lower.as_str());
        let ghost es = self@;
        let ghost fl = spec_to_lowercase(function@);
        let mut i: usize = 0;
        assert(es.skip(0) =~= es);
        while i < self.parts.len()
            invariant
                i <= self.parts.len(),
                es == self@,
                es.len() == self.parts@.len(),
                hay@ == fl,
                fl == spec_to_lowercase(function@),
                first_match(es, fl) == first_match(es.skip(i as int), fl),
            decreases self.parts.len() - i,
        {
            let kw = chars_of(self.parts[i].0.as_str());
            assert(es.skip(i as int)[0] == es[i as int]);
            assert(es[i as int] == (
                self.parts@[i as int].0@,
                self.parts@[i as int].1@,
                self.parts@[i as int].2,
                self.parts@[i as int].3,
            ));
            if contains_sub(&hay, &kw) {
                assert(first_match(es.skip(i as int), fl) == Some(
                    (es[i as int].1, es[i as int].2, es[i as int].3),
                ));
                let mpn = to_string(self.parts[i].1.as_str());
                return Some((mpn, self.parts[i].2, self.parts[i].3));
            }
            assert(es.skip(i as int).drop_first() =~= es.skip(i + 1));
            i += 1;
        }
        assert(es.skip(i as int) =~= Seq::empty());
        None
    }
}

/// A component with a part attached from `found`, unless it already had
/// one or nothing was found.
pub open spec fn enriched(c: ComponentView, found: Option<(Seq<char>, Distributor, u64)>) -> ComponentView {
    if c.verified_part_number is Some {
        c
    } else {
        match found {
            Some(t) => ComponentView {
                verified_part_number: Some(t.0),
                preferred_distributor: Some(t.1),
                in_stock_quantity: Some(t.2),
                ..c
            },
            None => c,
        }
    }
}

/// Whether a component has no part and the catalog finds none for it.
pub open spec fn unmatched<S: PartLookupService>(service: &S, c: ComponentView) -> bool {
    c.verified_part_number is None && service.spec_lookup(c.function) is None
}

/// The components after validation stopped at index `k`: those before it
/// enriched, the rest as they were.
pub open spec fn enriched_before<S: PartLookupService>(service: &S, comps: Seq<ComponentView>, k: int) -> Seq<
    ComponentView,
> {
    Seq::new(
        comps.len(),
        |j: int|
            if j < k {
                enriched(comps[j], service.spec_lookup(comps[j].function))
            } else {
                comps[j]
            },
    )
}

/// Attaches a real part to every component that lacks one, in order.
/// Succeeds, and marks the intent validated, exactly when the catalog
/// resolves every such component; otherwise stops at the first one it
/// cannot resolve with `UnmatchedPart`, having enriched those before it.
pub fn validate_and_enrich<S: PartLookupService>(intent: &mut CircuitIntent, service: &S) -> (r: Result<
    (),
    ValidationError,
>)
    ensures
        final(intent).prompt == old(intent).prompt,
        final(intent).connections == old(intent).connections,
        final(intent).constraints == old(intent).constraints,
        ({
            let comps = component_views(old(intent).components@);
            match r {
                Ok(()) => (forall|i: int| 0 <= i < comps.len() ==> !unmatched(service, comps[i]))
                    && component_views(final(intent).components@) == enriched_before(
                    service,
                    comps,
                    comps.len() as int,
                ) && final(intent).is_validated,
                Err(e) => exists|k: int|
                    0 <= k < comps.len() && unmatched(service, comps[k]) && (forall|j: int|
                        0 <= j < k ==> !unmatched(service, comps[j])) && (e matches ValidationError::UnmatchedPart {
                        function,
                    } && function@ == comps[k].function) && component_views(
                        final(intent).components@,
                    ) == enriched_before(service, comps, k) && final(intent).is_validated == old(
                        intent,
                    ).is_validated,
            }
        }),
{
    let ghost comps = component_views(intent.components@);
    let mut rest: Vec<ComponentRequest> = Vec::new();
    std::mem::swap(&mut rest, &mut intent.components);
    let mut done: Vec<ComponentRequest> = Vec::new();
    let n = rest.len();
    let mut i: usize = 0;
    assert(comps.skip(0) =~= comps);
    assert(component_views(done@) =~= enriched_before(service, comps, 0).take(0));
    while rest.len() > 0
        invariant
            i + rest.len() == n,
            n == comps.len(),
            comps == component_views(old(intent).components@),
            component_views(rest@) == comps.skip(i as int),
            component_views(done@) == enriched_before(service, comps, i as int).take(i as int),
            forall|j: int| 0 <= j < i ==> !unmatched(service, comps[j]),
            intent.prompt == old(intent).prompt,
            intent.connections == old(intent).connections,
            intent.constraints == old(intent).constraints,
            intent.is_validated == old(intent).is_validated,
        decreases rest.len(),
    {
        let ghost before = rest@;
        let c = rest.remove(0);
        assert(c@ == comps[i as int]) by {
            assert(component_views(before)[0] == before[0]@);
            assert(comps.skip(i as int)[0] == comps[i as int]);
        }
        assert(component_views(rest@) =~= comps.skip(i + 1)) by {
            assert forall|j: int| 0 <= j < rest@.len() implies component_views(rest@)[j] == comps.skip(
                i + 1,
            )[j] by {
                assert(rest@[j] == before[j + 1]);
                assert(component_views(before)[j + 1] == before[j + 1]@);
                assert(comps.skip(i as int)[j + 1] == comps[i + 1 + j]);
            }
        }
        let ghost done0 = done@;
        assert(done0.len() == i as int) by {
            assert(component_views(done0).len() == done0.len());
        }
        if c.verified_part_number.is_none() {
            match service.find_in_stock_part(c.function.as_str()) {
                Some(found) => {
                    let (mpn, dist, stock) = found;
                    let e = ComponentRequest {
                        function: c.function,
                        designator_prefix: c.designator_prefix,
                        verified_part_number: Some(mpn),
                        preferred_distributor: Some(dist),
                        in_stock_quantity: Some(stock),
                    };
                    assert(e@ == enriched(comps[i as int], service.spec_lookup(comps[i as int].function)));
                    done.push(e);
                },
                None => {
                    let function = to_string(c.function.as_str());
                    assert(unmatched(service, comps[i as int]));
                    done.push(c);
                    let ghost mid = done@;
                    let ghost r0 = rest@;
                    done.append(&mut rest);
                    assert(done@ == done0.push(c) + r0);
                    assert(component_views(done@) =~= enriched_before(service, comps, i as int)) by {
                        assert forall|j: int| 0 <= j < comps.len() implies component_views(done@)[j]
                            == enriched_before(service, comps, i as int)[j] by {
                            if j < i {
                                assert(done@[j] == done0[j]);
                                assert(component_views(done0)[j] == done0[j]@);
                                assert(enriched_before(service, comps, i as int).take(i as int)[j]
                                    == enriched_before(service, comps, i as int)[j]);
                            } else if j == i {
                                assert(done@[j] == c);
                            } else {
                                assert(done@[j] == r0[j - i - 1]);
                                assert(component_views(r0)[j - i - 1] == r0[j - i - 1]@);
                                assert(comps.skip(i + 1)[j - i - 1] == comps[j]);
                            }
                        }
                    }
                    intent.components = done;
                    let err = ValidationError::UnmatchedPart { function };
                    return Err(err);
                },
            }
        } else {
            done.push(c);
        }
        assert(component_views(done@) =~= enriched_before(service, comps, (i + 1) as int).take(
            (i + 1) as int,
        )) by {
            assert forall|j: int| 0 <= j < i + 1 implies component_views(done@)[j]
                == enriched_before(service, comps, (i + 1) as int)[j] by {
                if j < i {
                    assert(done@[j] == done0[j]);
                    assert(component_views(done0)[j] == done0[j]@);
                    assert(enriched_before(service, comps, i as int).take(i as int)[j]
                        == enriched_before(service, comps, i as int)[j]);
                }
            }
        }
        i += 1;
    }
    assert(component_views(done@) =~= enriched_before(service, comps, comps.len() as int)) by {
        assert(enriched_before(service, comps, i as int).take(i as int) =~= enriched_before(
            service,
            comps,
            comps.len() as int,
        ));
    }
    intent.components = done;
    intent.is_validated = true;
    Ok(())
}

/// Validation succeeds exactly when every component without a part has
/// one in the catalog; then every such component carries the catalog's
/// part, and a component that already had a part keeps it.
pub proof fn law_validation_resolves_every_part<S: PartLookupService>(
    service: &S,
    comps: Seq<ComponentView>,
    i: int,
)
    requires
        0 <= i < comps.len(),
        forall|j: int| 0 <= j < comps.len() ==> !unmatched(service, comps[j]),
    ensures
        enriched_before(service, comps, comps.len() as int)[i].verified_part_number is Some,
        comps[i].verified_part_number is None ==> enriched_before(
            service,
            comps,
            comps.len() as int,
        )[i].verified_part_number == Some(service.spec_lookup(comps[i].function).unwrap().0),
        comps[i].verified_part_number is Some ==> enriched_before(service, comps, comps.len() as int)[i]
            == comps[i],
{
    assert(!unmatched(service, comps[i]));
}

/// The catalog a sequence of registrations `(keyword, part number,
/// distributor, stock)` builds on an empty catalog, in order.
pub open spec fn catalog_after(
    registrations: Seq<(Seq<char>, Seq<char>, Distributor, u64)>,
) -> Seq<(Seq<char>, Seq<char>, Distributor, u64)> {
    registrations.map_values(
        |r: (Seq<char>, Seq<char>, Distributor, u64)| catalog_entry(r.0, r.1, r.2, r.3),
    )
}

/// One more registration appends its entry to the catalog, as `register`
/// does: so `default()` followed by `register` calls holds `catalog_after`
/// of their arguments.
pub proof fn lemma_catalog_after_push(
    registrations: Seq<(Seq<char>, Seq<char>, Distributor, u64)>,
    r: (Seq<char>, Seq<char>, Distributor, u64),
)
    ensures
        catalog_after(Seq::empty()) == Seq::<(Seq<char>, Seq<char>, Distributor, u64)>::empty(),
        catalog_after(registrations.push(r)) == catalog_after(registrations).push(
            catalog_entry(r.0, r.1, r.2, r.3),
        ),
{
    assert(catalog_after(Seq::empty()) =~= Seq::<(Seq<char>, Seq<char>, Distributor, u64)>::empty());
    assert(catalog_after(registrations.push(r)) =~= catalog_after(registrations).push(
        catalog_entry(r.0, r.1, r.2, r.3),
    ));
}

/// Whether the keyword of a catalog entry occurs in a lower-cased function.
pub open spec fn entry_matches(
    function_lower: Seq<char>,
    entry: (Seq<char>, Seq<char>, Distributor, u64),
) -> bool {
    spec_contains_sub(function_lower, entry.0)
}

/// `first_match` finds nothing exactly when no entry matches, and
/// otherwise gives the first matching entry.
pub proof fn lemma_first_match_least(
    entries: Seq<(Seq<char>, Seq<char>, Distributor, u64)>,
    function_lower: Seq<char>,
)
    ensures
        first_match(entries, function_lower) is None <==> forall|i: int|
            0 <= i < entries.len() ==> !entry_matches(function_lower, #[trigger] entries[i]),
        forall|j: int|
            0 <= j < entries.len() && entry_matches(function_lower, #[trigger] entries[j]) && (
            forall|i: int| 0 <= i < j ==> !entry_matches(function_lower, #[trigger] entries[i]))
                ==> first_match(entries, function_lower) == Some(
                (entries[j].1, entries[j].2, entries[j].3),
            ),
    decreases entries.len(),
{
    if entries.len() > 0 {
        let rest = entries.drop_first();
        lemma_first_match_least(rest, function_lower);
        if entry_matches(function_lower, entries[0]) {
            assert forall|j: int|
                0 <= j < entries.len() && entry_matches(function_lower, #[trigger] entries[j]) && (
                forall|i: int| 0 <= i < j ==> !entry_matches(function_lower, #[trigger] entries[i]))
                    implies first_match(entries, function_lower) == Some(
                    (entries[j].1, entries[j].2, entries[j].3),
                ) by {
                if j > 0 {
                    assert(!entry_matches(function_lower, entries[0]));
                }
            }
        } else {
            assert forall|i: int| 0 <= i < rest.len() implies rest[i] == entries[i + 1] by {}
            if first_match(entries, function_lower) is None {
                assert forall|i: int| 0 <= i < entries.len() implies !entry_matches(
                    function_lower,
                    #[trigger] entries[i],
                ) by {
                    if i > 0 {
                        assert(rest[i - 1] == entries[i]);
                    }
                }
            }
            if forall|i: int| 0 <= i < entries.len() ==> !entry_matches(function_lower, #[trigger] entries[i]) {
                assert forall|i: int| 0 <= i < rest.len() implies !entry_matches(
                    function_lower,
                    #[trigger] rest[i],
                ) by {
                    assert(rest[i] == entries[i + 1]);
                }
            }
            assert forall|j: int|
                0 <= j < entries.len() && entry_matches(function_lower, #[trigger] entries[j]) && (
                forall|i: int| 0 <= i < j ==> !entry_matches(function_lower, #[trigger] entries[i]))
                    implies first_match(entries, function_lower) == Some(
                    (entries[j].1, entries[j].2, entries[j].3),
                ) by {
                assert(j > 0);
                assert(rest[j - 1] == entries[j]);
                assert forall|i: int| 0 <= i < j - 1 implies !entry_matches(
                    function_lower,
                    #[trigger] rest[i],
                ) by {
                    assert(rest[i] == entries[i + 1]);
                }
            }
        }
    }
}

/// After a sequence of registrations on an empty catalog, a lookup finds
/// the part of the first registration whose lower-cased keyword occurs in
/// the lower-cased function, and nothing exactly when there is none.
pub proof fn law_lookup_after_registrations(
    registrations: Seq<(Seq<char>, Seq<char>, Distributor, u64)>,
    function: Seq<char>,
)
    ensures
        first_match(catalog_after(registrations), spec_to_lowercase(function)) is None
            <==> forall|i: int|
            0 <= i < registrations.len() ==> !spec_contains_sub(
                spec_to_lowercase(function),
                spec_to_lowercase(#[trigger] registrations[i].0),
            ),
        forall|j: int|
            0 <= j < registrations.len() && spec_contains_sub(
                spec_to_lowercase(function),
                spec_to_lowercase(#[trigger] registrations[j].0),
            ) && (forall|i: int|
                0 <= i < j ==> !spec_contains_sub(
                    spec_to_lowercase(function),
                    spec_to_lowercase(#[trigger] registrations[i].0),
                )) ==> first_match(catalog_after(registrations), spec_to_lowercase(function))
                == Some((registrations[j].1, registrations[j].2, registrations[j].3)),
{
    let es = catalog_after(registrations);
    let fl = spec_to_lowercase(function);
    lemma_first_match_least(es, fl);
    assert forall|i: int| 0 <= i < registrations.len() implies #[trigger] es[i] == catalog_entry(
        registrations[i].0,
        registrations[i].1,
        registrations[i].2,
        registrations[i].3,
    ) by {}
    assert forall|j: int|
        0 <= j < registrations.len() && spec_contains_sub(fl, spec_to_lowercase(#[trigger] registrations[j].0))
            && (forall|i: int|
            0 <= i < j ==> !spec_contains_sub(fl, spec_to_lowercase(#[trigger] registrations[i].0)))
            implies first_match(es, fl) == Some((registrations[j].1, registrations[j].2, registrations[j].3)) by {
        assert(entry_matches(fl, es[j]));
        assert forall|i: int| 0 <= i < j implies !entry_matches(fl, #[trigger] es[i]) by {
            assert(!spec_contains_sub(fl, spec_to_lowercase(registrations[i].0)));
        }
    }
    if first_match(es, fl) is None {
        assert forall|i: int| 0 <= i < registrations.len() implies !spec_contains_sub(
            fl,
            spec_to_lowercase(#[trigger] registrations[i].0),
        ) by {
            assert(!entry_matches(fl, es[i]));
        }
    }
    if forall|i: int| 0 <= i < registrations.len() ==> !spec_contains_sub(
        fl,
        spec_to_lowercase(#[trigger] registrations[i].0),
    ) {
        assert forall|i: int| 0 <= i < es.len() implies !entry_matches(fl, #[trigger] es[i]) by {
            assert(!spec_contains_sub(fl, spec_to_lowercase(registrations[i].0)));
        }
    }
}

} // verus!
