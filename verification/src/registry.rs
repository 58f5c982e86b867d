//! Chip families known to the library and the selection of a target among them.

use vstd::prelude::*;
use crate::flash_algorithm::FlashAlgorithm;
use crate::memory::MemoryRegion;
use crate::targets::{is_nrf51_family, nRF51822};
use crate::text::{
    eq_ignore_ascii_case, find_separator, find_separator_from, lemma_find_separator_bounds, lower,
    starts_with_ignore_ascii_case,
};

verus! {

/// A JEP106 manufacturer code: a continuation count and an identity code.
#[derive(Clone, Copy, Debug, PartialEq, Eq, Structural)]
pub struct Jep106Code {
    pub cc: u8,
    pub id: u8,
}

/// What a connected chip reports about itself.
#[derive(Clone, Copy, Debug, PartialEq, Eq, Structural)]
pub struct ChipInfo {
    pub manufacturer: Jep106Code,
    pub part: u16,
}

/// One chip variant of a family: its name and memory map.
#[derive(Debug)]
pub struct Chip {
    pub name: String,
    pub memory_map: Vec<MemoryRegion>,
}

/// A family of chips sharing a core and flash algorithms.
#[derive(Debug)]
pub struct ChipFamily {
    pub name: String,
    pub manufacturer: Option<Jep106Code>,
    pub part: Option<u16>,
    pub variants: Vec<Chip>,
    pub flash_algorithms: Vec<FlashAlgorithm>,
    pub core: String,
}

/// The kinds of core the library can debug.
#[derive(Clone, Copy, Debug, PartialEq, Eq, Structural)]
pub enum CoreType {
    M0,
    M4,
    M33,
}

/// The name of a chip, and optionally of the flash algorithm to use with it.
#[derive(Debug, Clone, Hash, PartialEq, Eq)]
pub struct TargetIdentifier {
    pub chip_name: String,
    pub flash_algorithm_name: Option<String>,
}

/// How to pick a target: by name, or by what the chip reports.
pub enum SelectionStrategy {
    TargetIdentifier(TargetIdentifier),
    ChipInfo(ChipInfo),
}

/// What was not found in the registry.
#[derive(Clone, Copy, Debug, PartialEq, Eq, Structural)]
pub enum NotFoundKind {
    Chip,
    Algorithm,
    Core,
}

/// What a chip's memory map lacks.
#[derive(Clone, Copy, Debug, PartialEq, Eq, Structural)]
pub enum MissingKind {
    RamRegion,
    FlashRegion,
}

/// Why no target could be selected.
#[derive(Clone, Copy, Debug, PartialEq, Eq, Structural)]
pub enum RegistryError {
    NotFound(NotFoundKind),
    Missing(MissingKind),
}

/// A complete target: a chip, the flash algorithm and the core to use with it.
#[derive(Debug)]
pub struct Target {
    pub identifier: TargetIdentifier,
    pub manufacturer: Option<Jep106Code>,
    pub part: Option<u16>,
    pub flash_algorithm: FlashAlgorithm,
    pub core: CoreType,
    pub memory_map: Vec<MemoryRegion>,
}

/// The core named `name`, ignoring ASCII case.
pub open spec fn spec_core(name: Seq<char>) -> Option<CoreType> {
    if lower(name) == seq!['m', '0'] {
        Some(CoreType::M0)
    } else if lower(name) == seq!['m', '4'] {
        Some(CoreType::M4)
    } else if lower(name) == seq!['m', '3', '3'] {
        Some(CoreType::M33)
    } else {
        None
    }
}

/// Looks up a core by name, ignoring ASCII case.
pub fn get_core(name: &str) -> (core: Option<CoreType>)
    ensures
        core == spec_core(name@),
{
    if eq_ignore_ascii_case(name, "m0") {
        proof {
            reveal_strlit("m0");
            assert(lower("m0"@) =~= seq!['m', '0']);
        }
        Some(CoreType::M0)
    } else if eq_ignore_ascii_case(name, "m4") {
        proof {
            reveal_strlit("m0");
            reveal_strlit("m4");
            assert(lower("m0"@) =~= seq!['m', '0']);
            assert(lower("m4"@) =~= seq!['m', '4']);
        }
        Some(CoreType::M4)
    } else if eq_ignore_ascii_case(name, "m33") {
        proof {
            reveal_strlit("m0");
            reveal_strlit("m4");
            reveal_strlit("m33");
            assert(lower("m0"@) =~= seq!['m', '0']);
            assert(lower("m4"@) =~= seq!['m', '4']);
            assert(lower("m33"@) =~= seq!['m', '3', '3']);
        }
        Some(CoreType::M33)
    } else {
        proof {
            reveal_strlit("m0");
            reveal_strlit("m4");
            reveal_strlit("m33");
            assert(lower("m0"@) =~= seq!['m', '0']);
            assert(lower("m4"@) =~= seq!['m', '4']);
            assert(lower("m33"@) =~= seq!['m', '3', '3']);
        }
        None
    }
}

/// The part of `value` before the first "::".
pub open spec fn spec_chip_name(value: Seq<char>) -> Seq<char> {
    match find_separator(value, 0) {
        None => value,
        Some(i) => value.take(i),
    }
}

/// The part of `value` between the first and the second "::", if there is a first.
pub open spec fn spec_algorithm_name(value: Seq<char>) -> Option<Seq<char>> {
    match find_separator(value, 0) {
        None => None,
        Some(i) => match find_separator(value, i + 2) {
            None => Some(value.skip(i + 2)),
            Some(j) => Some(value.subrange(i + 2, j)),
        },
    }
}

impl TargetIdentifier {
    /// Splits `value` at "::": the first piece names the chip, the second,
    /// where there is one, the flash algorithm.
    pub fn from(value: &str) -> (identifier: TargetIdentifier)
        ensures
            identifier.chip_name@ == spec_chip_name(value@),
            match spec_algorithm_name(value@) {
                None => identifier.flash_algorithm_name is None,
                Some(name) => identifier.flash_algorithm_name matches Some(n) && n@ == name,
            },
    {
        let n = value.unicode_len();
        match find_separator_from(value, 0) {
            None => TargetIdentifier { chip_name: value.to_owned(), flash_algorithm_name: None },
            Some(i) => {
                proof {
                    lemma_find_separator_bounds(value@, 0);
                    lemma_find_separator_bounds(value@, i + 2);
                }
                let chip_name = value.substring_char(0, i).to_owned();
                assert(value@.subrange(0, i as int) =~= value@.take(i as int));
                let algorithm_name = match find_separator_from(value, i + 2) {
                    None => {
                        assert(value@.subrange(i + 2, n as int) =~= value@.skip(i + 2));
                        value.substring_char(i + 2, n).to_owned()
                    },
                    Some(j) => value.substring_char(i + 2, j).to_owned(),
                };
                TargetIdentifier { chip_name, flash_algorithm_name: Some(algorithm_name) }
            },
        }
    }
}


/// The chips that the library knows.
pub struct Registry {
    families: Vec<ChipFamily>,
}

/// `(f, v)` names a variant of the family `f`.
pub open spec fn valid_pair(families: Seq<ChipFamily>, f: int, v: int) -> bool {
    0 <= f < families.len() && 0 <= v < families[f].variants@.len()
}

/// `(f2, v2)` comes after `(f, v)` when families are walked in order, and the
/// variants of each family in order.
pub open spec fn pair_after(f: int, v: int, f2: int, v2: int) -> bool {
    f2 > f || (f2 == f && v2 > v)
}

/// `(f, v)` is the last variant, in walking order, that satisfies `p`.
pub open spec fn is_last_match(
    families: Seq<ChipFamily>,
    f: int,
    v: int,
    p: spec_fn(int, int) -> bool,
) -> bool {
    &&& valid_pair(families, f, v)
    &&& p(f, v)
    &&& forall|f2: int, v2: int|
        valid_pair(families, f2, v2) && pair_after(f, v, f2, v2) ==> !#[trigger] p(f2, v2)
}

/// The last variant that satisfies `p`, if any does.
pub open spec fn last_match(families: Seq<ChipFamily>, p: spec_fn(int, int) -> bool) -> Option<(int, int)> {
    if exists|f: int, v: int| #[trigger] is_last_match(families, f, v, p) {
        Some(choose|f: int, v: int| #[trigger] is_last_match(families, f, v, p))
    } else {
        None
    }
}

/// The variant's name begins with the chip name asked for, ignoring ASCII case.
pub open spec fn name_matches(families: Seq<ChipFamily>, chip_name: Seq<char>) -> spec_fn(int, int) -> bool {
    |f: int, v: int| lower(chip_name).is_prefix_of(lower(families[f].variants@[v].name@))
}

/// The family reports the manufacturer and the part of the chip.
pub open spec fn info_matches(families: Seq<ChipFamily>, info: ChipInfo) -> spec_fn(int, int) -> bool {
    |f: int, v: int| families[f].manufacturer == Some(info.manufacturer) && families[f].part == Some(info.part)
}

/// The algorithm is the one asked for by name, or, with no name, a default one.
pub open spec fn algorithm_wanted(algo: FlashAlgorithm, name: Option<Seq<char>>) -> bool {
    match name {
        Some(n) => algo.name@ == n,
        None => algo.default,
    }
}

/// The first algorithm at or after `from` that is wanted.
pub open spec fn first_wanted(algos: Seq<FlashAlgorithm>, name: Option<Seq<char>>, from: int) -> Option<int>
    decreases algos.len() - from,
{
    if from < 0 || from >= algos.len() {
        None
    } else if algorithm_wanted(algos[from], name) {
        Some(from)
    } else {
        first_wanted(algos, name, from + 1)
    }
}

proof fn lemma_first_wanted(algos: Seq<FlashAlgorithm>, name: Option<Seq<char>>, from: int)
    ensures
        first_wanted(algos, name, from) matches Some(k) ==> from <= k < algos.len()
            && algorithm_wanted(algos[k], name),
    decreases algos.len() - from,
{
    if 0 <= from < algos.len() && !algorithm_wanted(algos[from], name) {
        lemma_first_wanted(algos, name, from + 1);
    }
}

/// The first wanted algorithm, else the first algorithm, if there is any.
pub open spec fn selected_algorithm(algos: Seq<FlashAlgorithm>, name: Option<Seq<char>>) -> Option<int> {
    match first_wanted(algos, name, 0) {
        Some(k) => Some(k),
        None => if algos.len() > 0 {
            Some(0)
        } else {
            None
        },
    }
}

proof fn lemma_first_wanted_first(algos: Seq<FlashAlgorithm>, name: Option<Seq<char>>, from: int)
    requires
        0 <= from,
    ensures
        first_wanted(algos, name, from) matches Some(k) ==> forall|j: int|
            from <= j < k ==> !algorithm_wanted(#[trigger] algos[j], name),
        first_wanted(algos, name, from) is None ==> forall|j: int|
            from <= j < algos.len() ==> !algorithm_wanted(#[trigger] algos[j], name),
    decreases algos.len() - from,
{
    if from < algos.len() && !algorithm_wanted(algos[from], name) {
        lemma_first_wanted_first(algos, name, from + 1);
    }
}

/// Which flash algorithm of a family is selected: with a name, the first
/// algorithm of that name; with no name, the first algorithm marked default;
/// when there is no such algorithm, the first algorithm; and none only for a
/// family without algorithms.
pub proof fn lemma_selected_algorithm(algos: Seq<FlashAlgorithm>, name: Option<Seq<char>>)
    ensures
        ({
            let fits = |a: FlashAlgorithm| match name {
                Some(n) => a.name@ == n,
                None => a.default,
            };
            &&& (exists|k: int| 0 <= k < algos.len() && fits(#[trigger] algos[k])) ==> (
            selected_algorithm(algos, name) matches Some(k) && 0 <= k < algos.len() && fits(algos[k])
                && forall|j: int| 0 <= j < k ==> !fits(#[trigger] algos[j]))
            &&& (forall|k: int| 0 <= k < algos.len() ==> !fits(#[trigger] algos[k])) ==> selected_algorithm(
                algos,
                name,
            ) == if algos.len() > 0 {
                Some(0int)
            } else {
                None
            }
        }),
{
    lemma_first_wanted(algos, name, 0);
    lemma_first_wanted_first(algos, name, 0);
}

/// With a target identifier that names no algorithm, a family that has an
/// algorithm marked default gets its first such algorithm.
pub proof fn lemma_default_algorithm_selected(families: Seq<ChipFamily>, id: TargetIdentifier)
    requires
        id.flash_algorithm_name is None,
    ensures
        spec_select(families, SelectionStrategy::TargetIdentifier(id)) matches Ok((f, v, k, core)) ==> (
        (exists|d: int| 0 <= d < families[f].flash_algorithms@.len() && (#[trigger] families[f].flash_algorithms@[d]).default)
            ==> families[f].flash_algorithms@[k].default && forall|j: int|
            0 <= j < k ==> !(#[trigger] families[f].flash_algorithms@[j]).default),
{
    match spec_select(families, SelectionStrategy::TargetIdentifier(id)) {
        Ok((f, v, k, core)) => {
            lemma_selected_algorithm(families[f].flash_algorithms@, None);
        },
        Err(_) => {},
    }
}

/// The variant that a strategy selects, if any.
pub open spec fn select_chip(families: Seq<ChipFamily>, strategy: SelectionStrategy) -> Option<(int, int)> {
    last_match(families, strategy_test(families, strategy))
}

/// The algorithm of a family that a strategy selects, if any.
pub open spec fn select_algorithm(family: ChipFamily, strategy: SelectionStrategy) -> Option<int> {
    match strategy {
        SelectionStrategy::TargetIdentifier(id) => selected_algorithm(
            family.flash_algorithms@,
            option_view(id.flash_algorithm_name),
        ),
        SelectionStrategy::ChipInfo(_) => if family.flash_algorithms@.len() > 0 {
            Some(0)
        } else {
            None
        },
    }
}

/// A memory map must hold RAM, and then flash.
pub open spec fn check_memory_map(map: Seq<MemoryRegion>) -> Result<(), RegistryError> {
    if !(exists|i: int| 0 <= i < map.len() && #[trigger] map[i] is Ram) {
        Err(RegistryError::Missing(MissingKind::RamRegion))
    } else if !(exists|i: int| 0 <= i < map.len() && #[trigger] map[i] is Flash) {
        Err(RegistryError::Missing(MissingKind::FlashRegion))
    } else {
        Ok(())
    }
}

/// The chip, the algorithm index and the core that a strategy selects, or why none.
pub open spec fn spec_select(families: Seq<ChipFamily>, strategy: SelectionStrategy) -> Result<
    (int, int, int, CoreType),
    RegistryError,
> {
    match select_chip(families, strategy) {
        None => Err(RegistryError::NotFound(NotFoundKind::Chip)),
        Some((f, v)) => match select_algorithm(families[f], strategy) {
            None => Err(RegistryError::NotFound(NotFoundKind::Algorithm)),
            Some(k) => match spec_core(families[f].core@) {
                None => Err(RegistryError::NotFound(NotFoundKind::Core)),
                Some(core) => match check_memory_map(families[f].variants@[v].memory_map@) {
                    Err(e) => Err(e),
                    Ok(()) => Ok((f, v, k, core)),
                },
            },
        },
    }
}

proof fn lemma_last_match_unique(
    families: Seq<ChipFamily>,
    f: int,
    v: int,
    p: spec_fn(int, int) -> bool,
)
    requires
        is_last_match(families, f, v, p),
    ensures
        last_match(families, p) == Some((f, v)),
{
    assert(exists|f: int, v: int| #[trigger] is_last_match(families, f, v, p));
    let pair = choose|f: int, v: int| #[trigger] is_last_match(families, f, v, p);
    assert(is_last_match(families, pair.0, pair.1, p));
    if pair.0 != f || pair.1 != v {
        if pair_after(f, v, pair.0, pair.1) {
            assert(!p(pair.0, pair.1));
        } else {
            assert(pair_after(pair.0, pair.1, f, v));
            assert(!p(f, v));
        }
    }
}

/// The index of the last variant, in walking order, that satisfies the strategy's test.
fn find_chip(families: &Vec<ChipFamily>, strategy: &SelectionStrategy) -> (found: Option<(usize, usize)>)
    ensures
        match found {
            Some((f, v)) => last_match(families@, strategy_test(families@, *strategy)) == Some(
                (f as int, v as int),
            ) && valid_pair(families@, f as int, v as int),
            None => last_match(families@, strategy_test(families@, *strategy)) is None,
        },
{
    let ghost p = strategy_test(families@, *strategy);
    let mut selected: Option<(usize, usize)> = None;
    let mut i: usize = 0;
    while i < families.len()
        invariant
            0 <= i <= families@.len(),
            p == strategy_test(families@, *strategy),
            match selected {
                Some((f, v)) => {
                    &&& valid_pair(families@, f as int, v as int)
                    &&& p(f as int, v as int)
                    &&& f < i
                    &&& forall|f2: int, v2: int|
                        valid_pair(families@, f2, v2) && pair_after(f as int, v as int, f2, v2) && f2 < i
                            ==> !#[trigger] p(f2, v2)
                },
                None => forall|f2: int, v2: int|
                    valid_pair(families@, f2, v2) && f2 < i ==> !#[trigger] p(f2, v2),
            },
        decreases families@.len() - i,
    {
        let family = &families[i];
        let mut j: usize = 0;
        while j < family.variants.len()
            invariant
                0 <= i < families@.len(),
                family == families@[i as int],
                0 <= j <= family.variants@.len(),
                p == strategy_test(families@, *strategy),
                match selected {
                    Some((f, v)) => {
                        &&& valid_pair(families@, f as int, v as int)
                        &&& p(f as int, v as int)
                        &&& (f < i || (f == i && v < j))
                        &&& forall|f2: int, v2: int|
                            valid_pair(families@, f2, v2) && pair_after(f as int, v as int, f2, v2)
                                && (f2 < i || (f2 == i && v2 < j)) ==> !#[trigger] p(f2, v2)
                    },
                    None => forall|f2: int, v2: int|
                        valid_pair(families@, f2, v2) && (f2 < i || (f2 == i && v2 < j)) ==> !#[trigger] p(f2, v2),
                },
            decreases family.variants@.len() - j,
        {
            let matches = match strategy {
                SelectionStrategy::TargetIdentifier(identifier) => starts_with_ignore_ascii_case(
                    family.variants[j].name.as_str(),
                    identifier.chip_name.as_str(),
                ),
                SelectionStrategy::ChipInfo(info) => manufacturer_and_part_match(family, info),
            };
            assert(matches == p(i as int, j as int));
            if matches {
                selected = Some((i, j));
            }
            j = j + 1;
        }
        i = i + 1;
    }
    match selected {
        Some((f, v)) => {
            proof {
                lemma_last_match_unique(families@, f as int, v as int, p);
            }
        },
        None => {
            assert(!exists|f: int, v: int| #[trigger] is_last_match(families@, f, v, p));
        },
    }
    selected
}

/// The test that a strategy puts to each variant.
pub open spec fn strategy_test(families: Seq<ChipFamily>, strategy: SelectionStrategy) -> spec_fn(int, int) -> bool {
    match strategy {
        SelectionStrategy::TargetIdentifier(id) => name_matches(families, id.chip_name@),
        SelectionStrategy::ChipInfo(info) => info_matches(families, info),
    }
}

fn manufacturer_and_part_match(family: &ChipFamily, info: &ChipInfo) -> (r: bool)
    ensures
        r == (family.manufacturer == Some(info.manufacturer) && family.part == Some(info.part)),
{
    let manufacturer_matches = match family.manufacturer {
        Some(m) => m.cc == info.manufacturer.cc && m.id == info.manufacturer.id,
        None => false,
    };
    let part_matches = match family.part {
        Some(p) => p == info.part,
        None => false,
    };
    manufacturer_matches && part_matches
}

/// The first algorithm from `from` on that is wanted.
fn find_wanted_algorithm(algos: &Vec<FlashAlgorithm>, name: &Option<String>) -> (k: Option<usize>)
    ensures
        match k {
            Some(k) => first_wanted(algos@, option_view(*name), 0) == Some(k as int) && k
                < algos@.len(),
            None => first_wanted(algos@, option_view(*name), 0) is None,
        },
{
    let mut k: usize = 0;
    while k < algos.len()
        invariant
            0 <= k <= algos@.len(),
            first_wanted(algos@, option_view(*name), k as int) == first_wanted(
                algos@,
                option_view(*name),
                0,
            ),
        decreases algos@.len() - k,
    {
        let wanted = match name {
            Some(n) => algos[k].name == *n,
            None => algos[k].default,
        };
        if wanted {
            proof {
                lemma_first_wanted(algos@, option_view(*name), k as int);
            }
            return Some(k);
        }
        k = k + 1;
    }
    None
}

/// The views of an optional name.
pub open spec fn option_view(name: Option<String>) -> Option<Seq<char>> {
    match name {
        Some(n) => Some(n@),
        None => None,
    }
}

/// Checks that the memory map holds a RAM region and a flash region.
fn check_map(map: &Vec<MemoryRegion>) -> (r: Result<(), RegistryError>)
    ensures
        r == check_memory_map(map@),
{
    let mut ram = false;
    let mut flash = false;
    let mut i: usize = 0;
    while i < map.len()
        invariant
            0 <= i <= map@.len(),
            ram == exists|k: int| 0 <= k < i && #[trigger] map@[k] is Ram,
            flash == exists|k: int| 0 <= k < i && #[trigger] map@[k] is Flash,
        decreases map@.len() - i,
    {
        match map[i] {
            MemoryRegion::Ram(_) => {
                ram = true;
            },
            MemoryRegion::Flash(_) => {
                flash = true;
            },
            MemoryRegion::Generic(_) => {},
        }
        i = i + 1;
    }
    if !ram {
        Err(RegistryError::Missing(MissingKind::RamRegion))
    } else if !flash {
        Err(RegistryError::Missing(MissingKind::FlashRegion))
    } else {
        Ok(())
    }
}

impl Registry {
    /// A registry of the chip families built into the library.
    pub fn from_builtin_families() -> (registry: Self)
        ensures
            registry.spec_families().len() == 1,
            is_nrf51_family(registry.spec_families()[0]),
            check_memory_map(registry.spec_families()[0].variants@[0].memory_map@) is Ok,
    {
        let family = nRF51822();
        proof {
            let map = family.variants@[0].memory_map@;
            assert(map[2] is Ram);
            assert(map[0] is Flash);
        }
        Registry { families: vec![family] }
    }

    /// The chip families of the registry.
    pub closed spec fn spec_families(&self) -> Seq<ChipFamily> {
        self.families@
    }

    /// The chip families of the registry.
    pub fn families(&self) -> (families: &Vec<ChipFamily>)
        ensures
            families@ == self.spec_families(),
    {
        &self.families
    }

    /// Adds a chip family; a family of the same name is replaced.
    pub fn add_family(&mut self, family: ChipFamily)
        ensures
            final(self).spec_families() == families_after_add(old(self).spec_families(), family),
    {
        match find_named(&self.families, &family.name) {
            Some(i) => {
                self.families.remove(i);
            },
            None => {},
        }
        self.families.push(family);
    }

    /// Selects a target: the last variant that the strategy matches, the
    /// flash algorithm asked for (or a default one, or the first one), and the
    /// core of its family; the variant must have RAM and flash.
    pub fn get_target(&self, strategy: SelectionStrategy) -> (result: Result<Target, RegistryError>)
        ensures
            match spec_select(self.spec_families(), strategy) {
                Err(e) => result == Err::<Target, RegistryError>(e),
                Ok((f, v, k, core)) => result matches Ok(target) && {
                    let family = self.spec_families()[f];
                    let chip = family.variants@[v];
                    let algo = family.flash_algorithms@[k];
                    &&& target.identifier.chip_name@ == chip.name@
                    &&& target.identifier.flash_algorithm_name matches Some(n) && n@ == algo.name@
                    &&& target.manufacturer == family.manufacturer
                    &&& target.part == family.part
                    &&& target.flash_algorithm.same(&algo)
                    &&& target.core == core
                    &&& target.memory_map@ == chip.memory_map@
                },
            },
    {
        let ghost families = self.families@;
        let found = find_chip(&self.families, &strategy);
        let (f, v) = match found {
            None => {
                return Err(RegistryError::NotFound(NotFoundKind::Chip));
            },
            Some(pair) => pair,
        };
        let family = &self.families[f];
        let chip = &family.variants[v];
        let k = match &strategy {
            SelectionStrategy::TargetIdentifier(identifier) => {
                match find_wanted_algorithm(&family.flash_algorithms, &identifier.flash_algorithm_name) {
                    Some(k) => Some(k),
                    None => if family.flash_algorithms.len() > 0 {
                        Some(0)
                    } else {
                        None
                    },
                }
            },
            SelectionStrategy::ChipInfo(_) => if family.flash_algorithms.len() > 0 {
                Some(0)
            } else {
                None
            },
        };
        let k = match k {
            None => {
                return Err(RegistryError::NotFound(NotFoundKind::Algorithm));
            },
            Some(k) => k,
        };
        let core = match get_core(family.core.as_str()) {
            None => {
                return Err(RegistryError::NotFound(NotFoundKind::Core));
            },
            Some(core) => core,
        };
        match check_map(&chip.memory_map) {
            Err(e) => {
                return Err(e);
            },
            Ok(()) => {},
        }
        let algo = &family.flash_algorithms[k];
        Ok(
            Target {
                identifier: TargetIdentifier {
                    chip_name: chip.name.clone(),
                    flash_algorithm_name: Some(algo.name.clone()),
                },
                manufacturer: family.manufacturer,
                part: family.part,
                flash_algorithm: algo.clone(),
                core,
                memory_map: chip.memory_map.clone(),
            },
        )
    }
}

/// The first family with the given name.
fn find_named(families: &Vec<ChipFamily>, name: &String) -> (index: Option<usize>)
    ensures
        match index {
            Some(i) => first_named(families@, name@, 0) == Some(i as int) && i < families@.len(),
            None => first_named(families@, name@, 0) is None,
        },
{
    let mut i: usize = 0;
    while i < families.len()
        invariant
            0 <= i <= families@.len(),
            first_named(families@, name@, i as int) == first_named(families@, name@, 0),
        decreases families@.len() - i,
    {
        if families[i].name == *name {
            return Some(i);
        }
        i = i + 1;
    }
    None
}

/// The first family at or after `from` with the given name.
pub open spec fn first_named(families: Seq<ChipFamily>, name: Seq<char>, from: int) -> Option<int>
    decreases families.len() - from,
{
    if from < 0 || from >= families.len() {
        None
    } else if families[from].name@ == name {
        Some(from)
    } else {
        first_named(families, name, from + 1)
    }
}


/// The first family of a name has that name, and no family before it has.
proof fn lemma_first_named(families: Seq<ChipFamily>, name: Seq<char>, from: int)
    requires
        0 <= from,
    ensures
        first_named(families, name, from) matches Some(i) ==> from <= i < families.len()
            && families[i].name@ == name && forall|k: int| from <= k < i ==> families[k].name@ != name,
        first_named(families, name, from) is None ==> forall|k: int|
            from <= k < families.len() ==> families[k].name@ != name,
    decreases families.len() - from,
{
    if from < families.len() && families[from].name@ != name {
        lemma_first_named(families, name, from + 1);
    }
}

/// No two families share a name.
pub open spec fn names_unique(families: Seq<ChipFamily>) -> bool {
    forall|i: int, j: int|
        0 <= i < j < families.len() ==> families[i].name@ != families[j].name@
}

/// The families after `add_family`: the first of the same name taken out,
/// the new one at the end.
pub open spec fn families_after_add(families: Seq<ChipFamily>, family: ChipFamily) -> Seq<ChipFamily> {
    (match first_named(families, family.name@, 0) {
        Some(i) => families.remove(i),
        None => families,
    }).push(family)
}

/// Adding a family keeps one family per name: when names were unique, they
/// stay unique, and the new family is the one of its name.
pub proof fn lemma_add_family_keeps_names_unique(families: Seq<ChipFamily>, family: ChipFamily)
    requires
        names_unique(families),
    ensures
        names_unique(families_after_add(families, family)),
        families_after_add(families, family).last() == family,
        forall|k: int|
            0 <= k < families_after_add(families, family).len() - 1 ==> (#[trigger] families_after_add(
                families,
                family,
            )[k]).name@ != family.name@,
{
    lemma_first_named(families, family.name@, 0);
    let rest = match first_named(families, family.name@, 0) {
        Some(i) => families.remove(i),
        None => families,
    };
    let after = rest.push(family);
    assert(after == families_after_add(families, family));
    match first_named(families, family.name@, 0) {
        Some(i) => {
            assert forall|k: int| 0 <= k < rest.len() implies rest[k] == (if k < i {
                families[k]
            } else {
                families[k + 1]
            }) by {}
            assert forall|k: int| 0 <= k < rest.len() implies (#[trigger] rest[k]).name@ != family.name@ by {
                if k >= i {
                    assert(families[i].name@ != families[k + 1].name@);
                }
            }
            assert forall|a: int, b: int| 0 <= a < b < rest.len() implies rest[a].name@ != rest[b].name@ by {
                let fa = if a < i { a } else { a + 1 };
                let fb = if b < i { b } else { b + 1 };
                assert(rest[a] == families[fa]);
                assert(rest[b] == families[fb]);
            }
        },
        None => {},
    }
    assert forall|a: int, b: int| 0 <= a < b < after.len() implies after[a].name@ != after[b].name@ by {
        if b == after.len() - 1 {
            assert(after[a] == rest[a]);
        } else {
            assert(after[a] == rest[a] && after[b] == rest[b]);
        }
    }
    assert forall|k: int| 0 <= k < after.len() - 1 implies (#[trigger] after[k]).name@ != family.name@ by {
        assert(after[k] == rest[k]);
    }
}

} // verus!
