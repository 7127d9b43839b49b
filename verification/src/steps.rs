//! The configurable pipeline stages and how marker text resolves to one.

use vstd::prelude::*;
use vstd::set_lib::{lemma_int_range, lemma_len_subset, set_int_range};
use crate::text::{
    ascii_lower, chars_of, dec, dec_of, digit, eq_of, is_ascii_alnum, is_ascii_alnum_char, ascii_lower_char, lit,
    push_all, str_eq, string_of,
};

verus! {

/// One stage, as configured.
#[derive(Clone, PartialEq, Eq, Debug)]
pub struct StepDef {
    /// Stable identity: lowercase alphanumeric, assigned once.
    pub id: String,
    /// Shown under the node, and matched against markers like any alias.
    pub name: String,
    /// A Phosphor class without the `ph-` prefix, e.g. `database`.
    pub icon: String,
    /// Extra spellings that resolve to this step.
    pub aliases: Vec<String>,
    /// On the linear chain, or a branch off it.
    pub on_chain: bool,
}

/// Every step, in the order the stepper draws them.
#[derive(Clone, PartialEq, Eq, Debug)]
pub struct StepCatalog {
    pub steps: Vec<StepDef>,
}

/// Fold a name to its comparable form: ASCII letters and digits only, lowercased.
pub open spec fn norm(s: Seq<char>) -> Seq<char>
    decreases s.len(),
{
    if s.len() == 0 {
        Seq::empty()
    } else if is_ascii_alnum(s.last()) {
        norm(s.drop_last()).push(ascii_lower(s.last()))
    } else {
        norm(s.drop_last())
    }
}

pub fn normalise_chars(v: &Vec<char>) -> (r: Vec<char>)
    ensures
        r@ == norm(v@),
{
    let mut r: Vec<char> = Vec::new();
    let mut i: usize = 0;
    while i < v.len()
        invariant
            0 <= i <= v.len(),
            r@ == norm(v@.take(i as int)),
        decreases v.len() - i,
    {
        proof {
            assert(v@.take(i + 1).drop_last() =~= v@.take(i as int));
        }
        if is_ascii_alnum_char(v[i]) {
            r.push(ascii_lower_char(v[i]));
        }
        i += 1;
    }
    proof {
        assert(v@.take(v.len() as int) =~= v@);
    }
    r
}

/// Fold a name to its comparable form, so `Container App Jobs`,
/// `ContainerAppJobs` and `container-app-jobs` are one name.
pub fn normalise(raw: &str) -> (r: String)
    ensures
        r@ == norm(raw@),
{
    let v = normalise_chars(&chars_of(raw));
    string_of(v.as_slice())
}

/// Some alias of `s` folds to `wanted`.
pub open spec fn alias_matches(s: StepDef, wanted: Seq<char>) -> bool {
    exists|j: int| 0 <= j < s.aliases@.len() && #[trigger] norm(s.aliases@[j]@) == wanted
}

/// The step answers to `wanted`: by id, by display name or by an alias.
pub open spec fn step_matches(s: StepDef, wanted: Seq<char>) -> bool {
    norm(s.id@) == wanted || norm(s.name@) == wanted || alias_matches(s, wanted)
}

/// The first step at or after `i` that answers to `wanted`.
pub open spec fn first_matching(steps: Seq<StepDef>, wanted: Seq<char>, i: int) -> Option<int>
    decreases steps.len() - i,
{
    if i < 0 || i >= steps.len() {
        None
    } else if step_matches(steps[i], wanted) {
        Some(i)
    } else {
        first_matching(steps, wanted, i + 1)
    }
}

/// What a marker payload resolves to: the id of the first step answering to it.
pub open spec fn resolve_spec(steps: Seq<StepDef>, raw: Seq<char>) -> Option<Seq<char>> {
    match first_matching(steps, norm(raw), 0) {
        Some(k) => Some(steps[k].id@),
        None => None,
    }
}

/// The first step at or after `i` whose id is exactly `id`.
pub open spec fn find_id_from(steps: Seq<StepDef>, id: Seq<char>, i: int) -> Option<int>
    decreases steps.len() - i,
{
    if i < 0 || i >= steps.len() {
        None
    } else if steps[i].id@ == id {
        Some(i)
    } else {
        find_id_from(steps, id, i + 1)
    }
}

pub open spec fn find_id(steps: Seq<StepDef>, id: Seq<char>) -> Option<int> {
    find_id_from(steps, id, 0)
}

/// The steps on the linear chain, in order.
pub open spec fn chain_spec(steps: Seq<StepDef>) -> Seq<StepDef>
    decreases steps.len(),
{
    if steps.len() == 0 {
        Seq::empty()
    } else if steps.last().on_chain {
        chain_spec(steps.drop_last()).push(steps.last())
    } else {
        chain_spec(steps.drop_last())
    }
}

/// The catalog with every step of the given id taken out, the rest in order.
pub open spec fn without_id(steps: Seq<StepDef>, id: Seq<char>) -> Seq<StepDef>
    decreases steps.len(),
{
    if steps.len() == 0 {
        Seq::empty()
    } else if steps.last().id@ == id {
        without_id(steps.drop_last(), id)
    } else {
        without_id(steps.drop_last(), id).push(steps.last())
    }
}

/// The id minted for a new step called `name` when `n` is the suffix tried.
pub open spec fn candidate(base: Seq<char>, n: nat) -> Seq<char> {
    base + dec(n)
}

pub open spec fn mint_base(name: Seq<char>) -> Seq<char> {
    if norm(name).len() == 0 {
        seq!['s', 't', 'e', 'p']
    } else {
        norm(name)
    }
}

/// The shipped catalog: these ids, names, icons and order.
pub open spec fn is_default_step(s: StepDef, id: &str, name: &str, icon: &str, on_chain: bool) -> bool {
    &&& s.id@ == id@
    &&& s.name@ == name@
    &&& s.icon@ == icon@
    &&& s.aliases@.len() == 0
    &&& s.on_chain == on_chain
}

/// `r` is the id minted for `name` among `steps`: no step holds it; it is the
/// folded name when that is free, else the folded name with the smallest
/// suffix from 2 on that no step holds.
pub open spec fn is_minted(steps: Seq<StepDef>, name: Seq<char>, r: Seq<char>) -> bool {
    &&& find_id(steps, r) is None
    &&& find_id(steps, mint_base(name)) is None ==> r == mint_base(name)
    &&& find_id(steps, mint_base(name)) is Some ==> exists|n: nat|
        n >= 2 && r == candidate(mint_base(name), n) && forall|m: nat|
            2 <= m < n ==> (#[trigger] find_id(steps, candidate(mint_base(name), m))) is Some
}

pub open spec fn is_default_catalog(c: StepCatalog) -> bool {
    let s = c.steps@;
    &&& s.len() == 13
    &&& is_default_step(s[0], "neo", "NEO", "database", true)
    &&& is_default_step(s[1], "authentication", "Authentication", "lock-key", true)
    &&& is_default_step(s[2], "apim", "APIM", "cloud", true)
    &&& is_default_step(s[3], "landing", "Landing", "folder-simple", true)
    &&& is_default_step(s[4], "eventgrid", "Event Grid", "lightning", true)
    &&& is_default_step(s[5], "raw", "Raw", "file-code", true)
    &&& is_default_step(s[6], "servicebus", "Service Bus", "envelope-simple", true)
    &&& is_default_step(s[7], "containerappjobs", "Container App Jobs", "cpu", true)
    &&& is_default_step(s[8], "processing", "Processing", "gear", true)
    &&& is_default_step(s[9], "curated", "Curated", "medal", true)
    &&& is_default_step(s[10], "verification", "Verification", "check-circle", true)
    &&& is_default_step(s[11], "quarantine", "Quarantine", "warning-circle", false)
    &&& is_default_step(s[12], "rejected", "Rejected", "x-circle", false)
}


proof fn lemma_dec_nonempty(n: nat)
    ensures
        dec(n).len() >= 1,
        n >= 10 ==> dec(n).len() >= 2,
    decreases n,
{
    if n >= 10 {
        lemma_dec_nonempty(n / 10);
    }
}

proof fn lemma_digit_injective(a: nat, b: nat)
    requires
        a < 10,
        b < 10,
        digit(a) == digit(b),
    ensures
        a == b,
{
}

/// Distinct numbers print differently.
pub proof fn lemma_dec_injective(a: nat, b: nat)
    requires
        dec(a) == dec(b),
    ensures
        a == b,
    decreases a,
{
    lemma_dec_nonempty(a);
    lemma_dec_nonempty(b);
    if a < 10 && b < 10 {
        assert(dec(a)[0] == digit(a));
        assert(dec(b)[0] == digit(b));
        lemma_digit_injective(a, b);
    } else if a >= 10 && b >= 10 {
        assert(dec(a).last() == digit(a % 10));
        assert(dec(b).last() == digit(b % 10));
        lemma_digit_injective(a % 10, b % 10);
        assert(dec(a / 10) =~= dec(a).drop_last());
        assert(dec(b / 10) =~= dec(b).drop_last());
        lemma_dec_injective(a / 10, b / 10);
    }
}

proof fn lemma_candidate_injective(base: Seq<char>, a: nat, b: nat)
    requires
        candidate(base, a) == candidate(base, b),
    ensures
        a == b,
{
    assert(dec(a) =~= candidate(base, a).skip(base.len() as int));
    assert(dec(b) =~= candidate(base, b).skip(base.len() as int));
    lemma_dec_injective(a, b);
}

proof fn lemma_find_id_found(steps: Seq<StepDef>, id: Seq<char>, i: int)
    requires
        0 <= i,
    ensures
        find_id_from(steps, id, i) matches Some(k) ==> i <= k < steps.len() && steps[k].id@ == id,
    decreases steps.len() - i,
{
    if i < steps.len() && steps[i].id@ != id {
        lemma_find_id_found(steps, id, i + 1);
    }
}

fn default_step(id: &str, name: &str, icon: &str, on_chain: bool) -> (s: StepDef)
    ensures
        is_default_step(s, id, name, icon, on_chain),
{
    StepDef {
        id: string_of(chars_of(id).as_slice()),
        name: string_of(chars_of(name).as_slice()),
        icon: string_of(chars_of(icon).as_slice()),
        aliases: Vec::new(),
        on_chain,
    }
}

fn alias_matches_exec(s: &StepDef, wanted: &Vec<char>) -> (b: bool)
    ensures
        b == alias_matches(*s, wanted@),
{
    let mut j: usize = 0;
    while j < s.aliases.len()
        invariant
            0 <= j <= s.aliases@.len(),
            forall|k: int| 0 <= k < j ==> #[trigger] norm(s.aliases@[k]@) != wanted@,
        decreases s.aliases.len() - j,
    {
        let a = normalise_chars(&chars_of(s.aliases[j].as_str()));
        if eq_of(&a, wanted) {
            return true;
        }
        j += 1;
    }
    false
}

fn step_matches_exec(s: &StepDef, wanted: &Vec<char>) -> (b: bool)
    ensures
        b == step_matches(*s, wanted@),
{
    eq_of(&normalise_chars(&chars_of(s.id.as_str())), wanted) || eq_of(
        &normalise_chars(&chars_of(s.name.as_str())),
        wanted,
    ) || alias_matches_exec(s, wanted)
}

impl StepCatalog {
    /// The built-in set: the names, icons and order the app ships with.
    pub fn defaults() -> (c: Self)
        ensures
            is_default_catalog(c),
    {
        let mut steps: Vec<StepDef> = Vec::new();
        steps.push(default_step("neo", "NEO", "database", true));
        steps.push(default_step("authentication", "Authentication", "lock-key", true));
        steps.push(default_step("apim", "APIM", "cloud", true));
        steps.push(default_step("landing", "Landing", "folder-simple", true));
        steps.push(default_step("eventgrid", "Event Grid", "lightning", true));
        steps.push(default_step("raw", "Raw", "file-code", true));
        steps.push(default_step("servicebus", "Service Bus", "envelope-simple", true));
        steps.push(default_step("containerappjobs", "Container App Jobs", "cpu", true));
        steps.push(default_step("processing", "Processing", "gear", true));
        steps.push(default_step("curated", "Curated", "medal", true));
        steps.push(default_step("verification", "Verification", "check-circle", true));
        steps.push(default_step("quarantine", "Quarantine", "warning-circle", false));
        steps.push(default_step("rejected", "Rejected", "x-circle", false));
        StepCatalog { steps }
    }

    /// Position along the chain, or None for a branch.
    pub fn chain_index(&self, id: &str) -> (r: Option<usize>)
        ensures
            r matches Some(k) ==> find_id(chain_spec(self.steps@), id@) == Some(k as int),
            r is None ==> find_id(chain_spec(self.steps@), id@) is None,
    {
        let chain = self.chain();
        let ghost c = chain_spec(self.steps@);
        let mut i: usize = 0;
        while i < chain.len()
            invariant
                0 <= i <= chain@.len(),
                chain@.map_values(|s: &StepDef| *s) == c,
                c == chain_spec(self.steps@),
                c.len() == chain@.len(),
                find_id(c, id@) == find_id_from(c, id@, i as int),
            decreases chain.len() - i,
        {
            proof {
                assert(c[i as int] == *chain@[i as int]);
            }
            if str_eq(chain[i].id.as_str(), id) {
                proof {
                    assert(find_id_from(c, id@, i as int) == Some(i as int));
                }
                return Some(i);
            }
            i += 1;
        }
        None
    }

    /// A fresh id for a user-added step: the folded name (or `step` when it
    /// folds to nothing) if free, else that name with the smallest suffix
    /// from 2 on that no step holds.
    pub fn mint_id(&self, name: &str) -> (r: String)
        ensures
            is_minted(self.steps@, name@, r@),
    {
        let folded = normalise_chars(&chars_of(name));
        let base = if folded.len() == 0 {
            lit("step")
        } else {
            folded
        };
        proof {
            reveal_strlit("step");
            assert(base@ =~= mint_base(name@));
        }
        let base_s = string_of(base.as_slice());
        if self.position(base_s.as_str()).is_none() {
            return base_s;
        }
        let ghost steps = self.steps@;
        let ghost len = steps.len() as int;
        let mut n: u128 = 2;
        let ghost mut used: Set<int> = Set::empty();
        let ghost mut owner: Map<int, nat> = Map::empty();
        proof {
            lemma_int_range(0, len);
            assert(self.steps@.len() == self.steps.len());
        }
        loop
            invariant
                steps == self.steps@,
                len == steps.len(),
                len <= usize::MAX,
                base@ == mint_base(name@),
                find_id(steps, base@) is Some,
                2 <= n,
                used.finite(),
                used.len() == n - 2,
                used.subset_of(set_int_range(0, len)),
                set_int_range(0, len).finite(),
                set_int_range(0, len).len() == len,
                forall|k: int| #[trigger] used.contains(k) ==> owner.dom().contains(k) && 2 <= owner[k]
                    < n && steps[k].id@ == candidate(base@, owner[k]),
                forall|m: nat| 2 <= m < n ==> (#[trigger] find_id(steps, candidate(base@, m))) is Some,
            decreases len + 2 - n,
        {
            proof {
                lemma_len_subset(used, set_int_range(0, len));
            }
            let mut cand = base.clone();
            let digits = dec_of(n);
            push_all(&mut cand, &digits);
            let cand_s = string_of(cand.as_slice());
            match self.position(cand_s.as_str()) {
                None => {
                    proof {
                        assert(cand_s@ == candidate(base@, n as nat));
                        assert forall|m: nat| 2 <= m < n implies (#[trigger] find_id(
                            self.steps@,
                            candidate(mint_base(name@), m),
                        )) is Some by {}
                    }
                    return cand_s;
                },
                Some(k) => {
                    proof {
                        lemma_find_id_found(steps, cand_s@, 0);
                        if used.contains(k as int) {
                            lemma_candidate_injective(base@, owner[k as int], n as nat);
                        }
                        used = used.insert(k as int);
                        owner = owner.insert(k as int, n as nat);
                        lemma_len_subset(used, set_int_range(0, len));
                    }
                },
            }
            n = n + 1;
        }
    }

    /// Add a step at the end of the list, on the chain, with the placeholder
    /// icon and no aliases, under an id minted from its name. Returns the id.
    pub fn add_step(&mut self, name: &str) -> (id: String)
        ensures
            is_minted(old(self).steps@, name@, id@),
            final(self).steps@.len() == old(self).steps@.len() + 1,
            final(self).steps@.drop_last() == old(self).steps@,
            final(self).steps@.last().id@ == id@,
            final(self).steps@.last().name@ == name@,
            final(self).steps@.last().icon@ == "circle"@,
            final(self).steps@.last().aliases@.len() == 0,
            final(self).steps@.last().on_chain,
    {
        let id = self.mint_id(name);
        let step = StepDef {
            id: string_of(chars_of(id.as_str()).as_slice()),
            name: string_of(chars_of(name).as_slice()),
            icon: string_of(lit("circle").as_slice()),
            aliases: Vec::new(),
            on_chain: true,
        };
        proof {
            reveal_strlit("circle");
        }
        self.steps.push(step);
        proof {
            assert(self.steps@.drop_last() =~= old(self).steps@);
        }
        id
    }

    /// Move a step, for drag-to-reorder. A drag that starts or ends outside
    /// the list, or does not move, changes nothing.
    pub fn reorder(&mut self, from: usize, to: usize)
        ensures
            (from >= old(self).steps@.len() || to >= old(self).steps@.len() || from == to)
                ==> final(self).steps@ == old(self).steps@,
            !(from >= old(self).steps@.len() || to >= old(self).steps@.len() || from == to)
                ==> final(self).steps@ == old(self).steps@.remove(from as int).insert(
                to as int,
                old(self).steps@[from as int],
            ),
    {
        if from >= self.steps.len() || to >= self.steps.len() || from == to {
            return ;
        }
        let item = self.steps.remove(from);
        self.steps.insert(to, item);
    }

    /// Delete every step with this id; the rest keep their order.
    pub fn remove(&mut self, id: &str)
        ensures
            final(self).steps@ == without_id(old(self).steps@, id@),
    {
        let ghost orig = self.steps@;
        let ghost mut j: int = 0;
        let mut i: usize = 0;
        while i < self.steps.len()
            invariant
                0 <= i <= self.steps@.len(),
                0 <= j <= orig.len(),
                self.steps@.take(i as int) == without_id(orig.take(j), id@),
                self.steps@.skip(i as int) == orig.skip(j),
            decreases self.steps.len() - i,
        {
            proof {
                assert(self.steps@.skip(i as int).len() > 0);
                assert(j < orig.len());
                assert(orig.skip(j)[0] == self.steps@[i as int]);
                assert(orig.take(j + 1).drop_last() =~= orig.take(j));
                assert(orig.take(j + 1).last() == orig[j]);
            }
            if str_eq(self.steps[i].id.as_str(), id) {
                let ghost before = self.steps@;
                self.steps.remove(i);
                proof {
                    assert(self.steps@.take(i as int) =~= before.take(i as int));
                    assert(self.steps@.skip(i as int) =~= before.skip(i as int).skip(1));
                    assert(orig.skip(j).skip(1) =~= orig.skip(j + 1));
                    j = j + 1;
                }
            } else {
                proof {
                    assert(self.steps@.take(i + 1) =~= self.steps@.take(i as int).push(
                        self.steps@[i as int],
                    ));
                    assert(self.steps@.skip(i + 1) =~= self.steps@.skip(i as int).skip(1));
                    assert(orig.skip(j).skip(1) =~= orig.skip(j + 1));
                    j = j + 1;
                }
                i += 1;
            }
        }
        proof {
            assert(orig.skip(j).len() == 0);
            assert(orig.take(j) =~= orig);
            assert(self.steps@.take(i as int) =~= self.steps@);
        }
    }

    /// Resolve a marker payload to a step id: the first step whose id, display
    /// name or any alias folds to the same text as `raw`.
    pub fn resolve(&self, raw: &str) -> (r: Option<String>)
        ensures
            r matches Some(id) ==> resolve_spec(self.steps@, raw@) == Some(id@),
            r is None ==> resolve_spec(self.steps@, raw@) is None,
    {
        let wanted = normalise_chars(&chars_of(raw));
        let mut i: usize = 0;
        while i < self.steps.len()
            invariant
                0 <= i <= self.steps@.len(),
                wanted@ == norm(raw@),
                first_matching(self.steps@, wanted@, 0) == first_matching(
                    self.steps@,
                    wanted@,
                    i as int,
                ),
            decreases self.steps.len() - i,
        {
            if step_matches_exec(&self.steps[i], &wanted) {
                return Some(self.steps[i].id.clone());
            }
            i += 1;
        }
        None
    }

    /// Index of the step with exactly this id.
    pub fn position(&self, id: &str) -> (r: Option<usize>)
        ensures
            r matches Some(k) ==> find_id(self.steps@, id@) == Some(k as int) && k < self.steps@.len(),
            r is None ==> find_id(self.steps@, id@) is None,
    {
        let want = chars_of(id);
        let mut i: usize = 0;
        while i < self.steps.len()
            invariant
                0 <= i <= self.steps@.len(),
                want@ == id@,
                find_id(self.steps@, id@) == find_id_from(self.steps@, id@, i as int),
            decreases self.steps.len() - i,
        {
            if str_eq(self.steps[i].id.as_str(), id) {
                return Some(i);
            }
            i += 1;
        }
        None
    }

    /// The step with exactly this id.
    pub fn get(&self, id: &str) -> (r: Option<&StepDef>)
        ensures
            r matches Some(s) ==> find_id(self.steps@, id@) matches Some(k) && *s == self.steps@[k],
            r is None ==> find_id(self.steps@, id@) is None,
    {
        match self.position(id) {
            Some(k) => Some(&self.steps[k]),
            None => None,
        }
    }

    /// Display name, falling back to the id so a step deleted mid-run still
    /// renders as something rather than as an empty label.
    pub fn name_of(&self, id: &str) -> (r: String)
        ensures
            r@ == (match find_id(self.steps@, id@) {
                Some(k) => self.steps@[k].name@,
                None => id@,
            }),
    {
        match self.get(id) {
            Some(s) => s.name.clone(),
            None => string_of(chars_of(id).as_slice()),
        }
    }

    /// Full Phosphor class; `ph-question` for an unknown step.
    pub fn icon_of(&self, id: &str) -> (r: String)
        ensures
            r@ == "ph-"@ + (match find_id(self.steps@, id@) {
                Some(k) => self.steps@[k].icon@,
                None => "question"@,
            }),
    {
        let mut out = lit("ph-");
        match self.get(id) {
            Some(s) => push_all(&mut out, &chars_of(s.icon.as_str())),
            None => push_all(&mut out, &lit("question")),
        }
        string_of(out.as_slice())
    }

    /// The linear chain, in order.
    pub fn chain(&self) -> (r: Vec<&StepDef>)
        ensures
            r@.map_values(|s: &StepDef| *s) == chain_spec(self.steps@),
    {
        let mut r: Vec<&StepDef> = Vec::new();
        let mut i: usize = 0;
        while i < self.steps.len()
            invariant
                0 <= i <= self.steps@.len(),
                r@.map_values(|s: &StepDef| *s) == chain_spec(self.steps@.take(i as int)),
            decreases self.steps.len() - i,
        {
            proof {
                assert(self.steps@.take(i + 1).drop_last() =~= self.steps@.take(i as int));
            }
            let ghost before = r@;
            if self.steps[i].on_chain {
                r.push(&self.steps[i]);
                proof {
                    assert(r@.map_values(|s: &StepDef| *s) =~= before.map_values(|s: &StepDef| *s).push(
                        self.steps@[i as int],
                    ));
                }
            }
            i += 1;
        }
        proof {
            assert(self.steps@.take(self.steps.len() as int) =~= self.steps@);
        }
        r
    }
}


proof fn lemma_first_matching_in_range(steps: Seq<StepDef>, wanted: Seq<char>, i: int)
    ensures
        first_matching(steps, wanted, i) matches Some(k) ==> 0 <= i <= k < steps.len() && step_matches(steps[k], wanted),
    decreases steps.len() - i,
{
    if 0 <= i < steps.len() && !step_matches(steps[i], wanted) {
        lemma_first_matching_in_range(steps, wanted, i + 1);
    }
}

proof fn lemma_without_id_excludes(steps: Seq<StepDef>, id: Seq<char>)
    ensures
        forall|k: int| 0 <= k < without_id(steps, id).len() ==> #[trigger] without_id(steps, id)[k].id@ != id,
    decreases steps.len(),
{
    if steps.len() > 0 {
        lemma_without_id_excludes(steps.drop_last(), id);
        let prev = without_id(steps.drop_last(), id);
        if steps.last().id@ != id {
            assert forall|k: int| 0 <= k < without_id(steps, id).len() implies #[trigger] without_id(steps, id)[k].id@ != id by {
                if k < prev.len() {
                    assert(without_id(steps, id)[k] == prev[k]);
                }
            }
        }
    }
}

/// A marker resolves the same however its payload is cased or punctuated:
/// two payloads that fold to the same text name the same step.
pub proof fn law_resolve_ignores_spelling(steps: Seq<StepDef>, a: Seq<char>, b: Seq<char>)
    requires
        norm(a) == norm(b),
    ensures
        resolve_spec(steps, a) == resolve_spec(steps, b),
{
}

/// Once a step is deleted, no marker resolves to it.
pub proof fn law_deleted_step_never_resolves(steps: Seq<StepDef>, id: Seq<char>, raw: Seq<char>)
    ensures
        resolve_spec(without_id(steps, id), raw) != Some(id),
{
    let rest = without_id(steps, id);
    lemma_first_matching_in_range(rest, norm(raw), 0);
    lemma_without_id_excludes(steps, id);
}

/// A payload resolves to the id of a step that answers to it, and to
/// nothing when no step does.
pub proof fn law_resolution_names_a_matching_step(steps: Seq<StepDef>, raw: Seq<char>)
    ensures
        resolve_spec(steps, raw) matches Some(id) ==> exists|k: int|
            0 <= k < steps.len() && step_matches(steps[k], norm(raw)) && #[trigger] steps[k].id@ == id,
        (forall|k: int| 0 <= k < steps.len() ==> !step_matches(#[trigger] steps[k], norm(raw)))
            ==> resolve_spec(steps, raw) is None,
{
    lemma_first_matching_in_range(steps, norm(raw), 0);
    if first_matching(steps, norm(raw), 0) is Some {
        let k = first_matching(steps, norm(raw), 0)->0;
        assert(steps[k].id@ == resolve_spec(steps, raw)->0);
    }
}

/// The catalogue to run with, given what the saved file held: the saved
/// steps when there are any, else the defaults. An empty list counts as a
/// broken file, since it would draw no stepper at all.
pub fn catalog_or_defaults(saved: Option<StepCatalog>) -> (c: StepCatalog)
    ensures
        match saved {
            Some(s) => if s.steps@.len() > 0 { c == s } else { is_default_catalog(c) },
            None => is_default_catalog(c),
        },
{
    match saved {
        Some(s) => if s.steps.len() > 0 {
            s
        } else {
            StepCatalog::defaults()
        },
        None => StepCatalog::defaults(),
    }
}

/// The ids the default catalogue ships with, in order.
pub open spec fn default_ids() -> Seq<Seq<char>> {
    seq!["neo"@, "authentication"@, "apim"@, "landing"@, "eventgrid"@, "raw"@, "servicebus"@, "containerappjobs"@, "processing"@, "curated"@, "verification"@, "quarantine"@, "rejected"@]
}

/// The names the default catalogue ships with, in order.
pub open spec fn default_names() -> Seq<Seq<char>> {
    seq!["NEO"@, "Authentication"@, "APIM"@, "Landing"@, "Event Grid"@, "Raw"@, "Service Bus"@, "Container App Jobs"@, "Processing"@, "Curated"@, "Verification"@, "Quarantine"@, "Rejected"@]
}

proof fn lemma_norm_of_folded(s: Seq<char>)
    requires
        forall|i: int| 0 <= i < s.len() ==> ('a' <= #[trigger] s[i] <= 'z'),
    ensures
        norm(s) == s,
    decreases s.len(),
{
    if s.len() > 0 {
        lemma_norm_of_folded(s.drop_last());
        assert(s.drop_last().push(s.last()) =~= s);
    }
}

proof fn lemma_default_name_0()
    ensures
        norm("NEO"@) == "neo"@,
{
    reveal_strlit("NEO");
    reveal_strlit("neo");
    let a = "NEO"@;
    assert(a.len() == 3);
    reveal_with_fuel(norm, 4);
    assert(norm(a) =~= "neo"@);
}

proof fn lemma_default_name_1()
    ensures
        norm("Authentication"@) == "authentication"@,
{
    reveal_strlit("Authentication");
    reveal_strlit("authentication");
    let a = "Authentication"@;
    assert(a.len() == 14);
    reveal_with_fuel(norm, 15);
    assert(norm(a) =~= "authentication"@);
}

proof fn lemma_default_name_2()
    ensures
        norm("APIM"@) == "apim"@,
{
    reveal_strlit("APIM");
    reveal_strlit("apim");
    let a = "APIM"@;
    assert(a.len() == 4);
    reveal_with_fuel(norm, 5);
    assert(norm(a) =~= "apim"@);
}

proof fn lemma_default_name_3()
    ensures
        norm("Landing"@) == "landing"@,
{
    reveal_strlit("Landing");
    reveal_strlit("landing");
    let a = "Landing"@;
    assert(a.len() == 7);
    reveal_with_fuel(norm, 8);
    assert(norm(a) =~= "landing"@);
}

proof fn lemma_default_name_4()
    ensures
        norm("Event Grid"@) == "eventgrid"@,
{
    reveal_strlit("Event Grid");
    reveal_strlit("eventgrid");
    let a = "Event Grid"@;
    assert(a.len() == 10);
    reveal_with_fuel(norm, 11);
    assert(norm(a) =~= "eventgrid"@);
}

proof fn lemma_default_name_5()
    ensures
        norm("Raw"@) == "raw"@,
{
    reveal_strlit("Raw");
    reveal_strlit("raw");
    let a = "Raw"@;
    assert(a.len() == 3);
    reveal_with_fuel(norm, 4);
    assert(norm(a) =~= "raw"@);
}

proof fn lemma_default_name_6()
    ensures
        norm("Service Bus"@) == "servicebus"@,
{
    reveal_strlit("Service Bus");
    reveal_strlit("servicebus");
    let a = "Service Bus"@;
    assert(a.len() == 11);
    reveal_with_fuel(norm, 12);
    assert(norm(a) =~= "servicebus"@);
}

proof fn lemma_default_name_7()
    ensures
        norm("Container App Jobs"@) == "containerappjobs"@,
{
    reveal_strlit("Container App Jobs");
    reveal_strlit("containerappjobs");
    let a = "Container App Jobs"@;
    assert(a.len() == 18);
    reveal_with_fuel(norm, 19);
    assert(norm(a) =~= "containerappjobs"@);
}

proof fn lemma_default_name_8()
    ensures
        norm("Processing"@) == "processing"@,
{
    reveal_strlit("Processing");
    reveal_strlit("processing");
    let a = "Processing"@;
    assert(a.len() == 10);
    reveal_with_fuel(norm, 11);
    assert(norm(a) =~= "processing"@);
}

proof fn lemma_default_name_9()
    ensures
        norm("Curated"@) == "curated"@,
{
    reveal_strlit("Curated");
    reveal_strlit("curated");
    let a = "Curated"@;
    assert(a.len() == 7);
    reveal_with_fuel(norm, 8);
    assert(norm(a) =~= "curated"@);
}

proof fn lemma_default_name_10()
    ensures
        norm("Verification"@) == "verification"@,
{
    reveal_strlit("Verification");
    reveal_strlit("verification");
    let a = "Verification"@;
    assert(a.len() == 12);
    reveal_with_fuel(norm, 13);
    assert(norm(a) =~= "verification"@);
}

proof fn lemma_default_name_11()
    ensures
        norm("Quarantine"@) == "quarantine"@,
{
    reveal_strlit("Quarantine");
    reveal_strlit("quarantine");
    let a = "Quarantine"@;
    assert(a.len() == 10);
    reveal_with_fuel(norm, 11);
    assert(norm(a) =~= "quarantine"@);
}

proof fn lemma_default_name_12()
    ensures
        norm("Rejected"@) == "rejected"@,
{
    reveal_strlit("Rejected");
    reveal_strlit("rejected");
    let a = "Rejected"@;
    assert(a.len() == 8);
    reveal_with_fuel(norm, 9);
    assert(norm(a) =~= "rejected"@);
}

proof fn lemma_default_texts()
    ensures
        default_ids().len() == 13,
        default_names().len() == 13,
        forall|i: int| 0 <= i < 13 ==> (#[trigger] default_ids()[i]).len() > 0,
        forall|i: int| 0 <= i < 13 ==> norm(#[trigger] default_ids()[i]) == default_ids()[i],
        forall|i: int| 0 <= i < 13 ==> norm(#[trigger] default_names()[i]) == default_ids()[i],
        forall|i: int, j: int| 0 <= i < j < 13 ==> #[trigger] default_ids()[i] != #[trigger] default_ids()[j],
{
    reveal_strlit("neo");
    reveal_strlit("authentication");
    reveal_strlit("apim");
    reveal_strlit("landing");
    reveal_strlit("eventgrid");
    reveal_strlit("raw");
    reveal_strlit("servicebus");
    reveal_strlit("containerappjobs");
    reveal_strlit("processing");
    reveal_strlit("curated");
    reveal_strlit("verification");
    reveal_strlit("quarantine");
    reveal_strlit("rejected");
    lemma_norm_of_folded("neo"@);
    lemma_default_name_0();
    lemma_norm_of_folded("authentication"@);
    lemma_default_name_1();
    lemma_norm_of_folded("apim"@);
    lemma_default_name_2();
    lemma_norm_of_folded("landing"@);
    lemma_default_name_3();
    lemma_norm_of_folded("eventgrid"@);
    lemma_default_name_4();
    lemma_norm_of_folded("raw"@);
    lemma_default_name_5();
    lemma_norm_of_folded("servicebus"@);
    lemma_default_name_6();
    lemma_norm_of_folded("containerappjobs"@);
    lemma_default_name_7();
    lemma_norm_of_folded("processing"@);
    lemma_default_name_8();
    lemma_norm_of_folded("curated"@);
    lemma_default_name_9();
    lemma_norm_of_folded("verification"@);
    lemma_default_name_10();
    lemma_norm_of_folded("quarantine"@);
    lemma_default_name_11();
    lemma_norm_of_folded("rejected"@);
    lemma_default_name_12();
    let d = default_ids();
    let n = default_names();
    assert forall|i: int, j: int| 0 <= i < j < 13 implies #[trigger] d[i] != #[trigger] d[j] by {
        if d[i] == d[j] {
            assert(d[i].len() == d[j].len());
            assert(d[i][0] == d[j][0]);
        }
    }
}

proof fn lemma_first_matching_at(steps: Seq<StepDef>, wanted: Seq<char>, i: int, k: int)
    requires
        0 <= i <= k < steps.len(),
        step_matches(steps[k], wanted),
        forall|j: int| i <= j < k ==> !step_matches(#[trigger] steps[j], wanted),
    ensures
        first_matching(steps, wanted, i) == Some(k),
    decreases k - i,
{
    if i < k {
        lemma_first_matching_at(steps, wanted, i + 1, k);
    }
}

/// The default catalogue is well formed: every id is present, already in its
/// folded form and used once; no step has aliases; each step's display name
/// resolves to that step; and only Quarantine and Rejected are branches off
/// the chain.
pub proof fn law_defaults_are_well_formed(c: StepCatalog)
    requires
        is_default_catalog(c),
    ensures
        forall|i: int, j: int|
            0 <= i < j < c.steps@.len() ==> #[trigger] c.steps@[i].id@ != #[trigger] c.steps@[j].id@,
        forall|i: int|
            0 <= i < c.steps@.len() ==> {
                let s = #[trigger] c.steps@[i];
                &&& s.id@.len() > 0
                &&& norm(s.id@) == s.id@
                &&& s.aliases@.len() == 0
                &&& resolve_spec(c.steps@, s.name@) == Some(s.id@)
                &&& (s.on_chain <==> (s.id@ != "quarantine"@ && s.id@ != "rejected"@))
            },
{
    let st = c.steps@;
    let d = default_ids();
    let n = default_names();
    lemma_default_texts();
    assert forall|i: int| 0 <= i < 13 implies st[i].id@ == #[trigger] d[i] && st[i].name@ == n[i] && st[i].aliases@.len() == 0
        && (st[i].on_chain <==> i < 11) by {
    }
    assert("quarantine"@ == d[11] && "rejected"@ == d[12]);
    assert forall|k: int| 0 <= k < 13 implies resolve_spec(st, #[trigger] st[k].name@) == Some(st[k].id@) by {
        assert(norm(st[k].name@) == d[k]);
        assert forall|j: int| 0 <= j < k implies !step_matches(#[trigger] st[j], d[k]) by {
            assert(norm(st[j].id@) == d[j]);
            assert(norm(st[j].name@) == d[j]);
            assert(d[j] != d[k]);
        }
        lemma_first_matching_at(st, d[k], 0, k);
    }
    assert forall|i: int| 0 <= i < 13 implies (#[trigger] st[i].on_chain <==> (st[i].id@ != "quarantine"@ && st[i].id@ != "rejected"@)) by {
        if i < 11 {
            assert(d[i] != d[11] && d[i] != d[12]);
        }
    }
}

} // verus!

