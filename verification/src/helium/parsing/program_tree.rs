//! The program tree: the symbol table, the ordered segments, and the set of
//! files already merged, for one compilation unit and everything it pulls in.

use crate::helium::parsing::constant_type::ConstantType;
use crate::helium::parsing::defaults::{default_name, is_default_name, spec_default_value};
use crate::helium::parsing::program_segment::ProgramSegment;
use crate::helium::text::{lemma_lex_lt_trans, lemma_lex_lt_trichotomy, lex_lt, str_eq, str_lt};
use vstd::prelude::*;

verus! {

// ---------------------------------------------------------------------------
// The symbol table as a sequence of name-state pairs with unique names.
// ---------------------------------------------------------------------------

/// The state bound to `n`: that of its first (and, names being unique, only)
/// entry.
pub open spec fn spec_lookup(s: Seq<(String, ConstantType)>, n: Seq<char>) -> Option<ConstantType>
    decreases s.len(),
{
    if s.len() == 0 {
        None
    } else if s[0].0@ == n {
        Some(s[0].1)
    } else {
        spec_lookup(s.drop_first(), n)
    }
}

/// No name appears twice.
pub open spec fn keys_unique(s: Seq<(String, ConstantType)>) -> bool {
    forall|i: int, j: int| 0 <= i < j < s.len() ==> (#[trigger] s[i]).0@ != (#[trigger] s[j]).0@
}

/// Whether `n` is one of the names in `s`.
pub open spec fn spec_name_mem(s: Seq<String>, n: Seq<char>) -> bool {
    exists|k: int| 0 <= k < s.len() && (#[trigger] s[k])@ == n
}

/// Strictly ascending, hence duplicate-free.
pub open spec fn names_sorted(s: Seq<String>) -> bool {
    forall|i: int, j: int| 0 <= i < j < s.len() ==> lex_lt((#[trigger] s[i])@, (#[trigger] s[j])@)
}

/// A first match decides the lookup.
proof fn lemma_lookup_first(s: Seq<(String, ConstantType)>, m: int, n: Seq<char>)
    requires
        0 <= m < s.len(),
        s[m].0@ == n,
        forall|k: int| 0 <= k < m ==> (#[trigger] s[k]).0@ != n,
    ensures
        spec_lookup(s, n) == Some(s[m].1),
    decreases m,
{
    if m > 0 {
        lemma_lookup_first(s.drop_first(), m - 1, n);
    }
}

/// No match, no state.
proof fn lemma_lookup_absent(s: Seq<(String, ConstantType)>, n: Seq<char>)
    requires
        forall|k: int| 0 <= k < s.len() ==> (#[trigger] s[k]).0@ != n,
    ensures
        spec_lookup(s, n) is None,
    decreases s.len(),
{
    if s.len() > 0 {
        lemma_lookup_absent(s.drop_first(), n);
    }
}

/// Appending an entry of another name leaves a lookup unchanged.
proof fn lemma_lookup_push(s: Seq<(String, ConstantType)>, p: (String, ConstantType), n: Seq<char>)
    requires
        p.0@ != n,
    ensures
        spec_lookup(s.push(p), n) == spec_lookup(s, n),
    decreases s.len(),
{
    if s.len() == 0 {
        reveal_with_fuel(spec_lookup, 3);
        assert(s.push(p)[0] == p);
        assert(s.push(p).drop_first() =~= Seq::<(String, ConstantType)>::empty());
    } else {
        assert(s.push(p)[0] == s[0]);
        if s[0].0@ == n {
        } else {
            assert(s.push(p).drop_first() =~= s.drop_first().push(p));
            lemma_lookup_push(s.drop_first(), p, n);
        }
    }
}

/// The names still unresolved, in declaration order; a default alias name is
/// exempt while `exempt` holds (an import's scan runs before the defaults are
/// injected).
pub open spec fn spec_unresolved(s: Seq<(String, ConstantType)>, exempt: bool) -> Seq<Seq<char>>
    decreases s.len(),
{
    if s.len() == 0 {
        Seq::empty()
    } else {
        let rest = spec_unresolved(s.drop_first(), exempt);
        if s[0].1 == ConstantType::Unknown && !(exempt && is_default_name(s[0].0@)) {
            seq![s[0].0@] + rest
        } else {
            rest
        }
    }
}

/// How many entries are not labels. Every non-negative count the scan below
/// reports comes from here.
pub open spec fn spec_non_label_count(s: Seq<(String, ConstantType)>) -> int
    decreases s.len(),
{
    if s.len() == 0 {
        0int
    } else {
        spec_non_label_count(s.drop_first()) + (if s[0].1 is Label {
            0int
        } else {
            1int
        })
    }
}

/// The table seen as a map from names to states: what the lookups say,
/// independent of entry order.
pub open spec fn consts_model(s: Seq<(String, ConstantType)>) -> Map<Seq<char>, ConstantType> {
    Map::new(|n: Seq<char>| spec_lookup(s, n) is Some, |n: Seq<char>| spec_lookup(s, n)->0)
}

/// Binding one name moves the model by one insertion.
pub proof fn lemma_consts_model_bind(
    a: Seq<(String, ConstantType)>,
    b: Seq<(String, ConstantType)>,
    key: Seq<char>,
    val: ConstantType,
)
    requires
        spec_lookup(b, key) == Some(val),
        forall|n: Seq<char>| n != key ==> #[trigger] spec_lookup(b, n) == spec_lookup(a, n),
    ensures
        consts_model(b) =~= consts_model(a).insert(key, val),
{
    let mb = consts_model(b);
    let mi = consts_model(a).insert(key, val);
    assert(mb.dom() =~= mi.dom());
    assert forall|n: Seq<char>| mb.dom().contains(n) implies mb[n] == mi[n] by {
        if n != key {
            assert(spec_lookup(b, n) == spec_lookup(a, n));
        }
    }
}

/// The default register aliases, written into a name-to-state map. A default
/// wins over a same-named user constant, as `complete` does.
pub open spec fn spec_inject_defaults(
    m: Map<Seq<char>, ConstantType>,
) -> Map<Seq<char>, ConstantType> {
    m.insert("A"@, ConstantType::Value(0)).insert("rA"@, ConstantType::Value(0)).insert("r0"@, ConstantType::Value(0)).insert("B"@, ConstantType::Value(1)).insert("rB"@, ConstantType::Value(1)).insert("r1"@, ConstantType::Value(1)).insert("C"@, ConstantType::Value(2)).insert("rC"@, ConstantType::Value(2)).insert("r2"@, ConstantType::Value(2)).insert("X"@, ConstantType::Value(3)).insert("rX"@, ConstantType::Value(3)).insert("r3"@, ConstantType::Value(3)).insert("Y"@, ConstantType::Value(4)).insert("rY"@, ConstantType::Value(4)).insert("r4"@, ConstantType::Value(4)).insert("F"@, ConstantType::Value(5)).insert("rF"@, ConstantType::Value(5)).insert("r5"@, ConstantType::Value(5)).insert("SP"@, ConstantType::Value(6)).insert("rSP"@, ConstantType::Value(6)).insert("r6"@, ConstantType::Value(6))
}

/// The unresolved names, read off the name-to-state map.
pub open spec fn model_unresolved(m: Map<Seq<char>, ConstantType>, exempt: bool) -> Set<Seq<char>> {
    Set::new(
        |n: Seq<char>|
            m.contains_key(n) && m[n] == ConstantType::Unknown && !(exempt && is_default_name(n)),
    )
}

/// A bound name has an entry bearing it.
proof fn lemma_lookup_witness(s: Seq<(String, ConstantType)>, n: Seq<char>)
    requires
        spec_lookup(s, n) is Some,
    ensures
        exists|j: int| 0 <= j < s.len() && (#[trigger] s[j]).0@ == n,
    decreases s.len(),
{
    if s.len() > 0 {
        if s[0].0@ == n {
            assert(s[0].0@ == n);
        } else {
            lemma_lookup_witness(s.drop_first(), n);
            let j = choose|j: int| 0 <= j < s.drop_first().len() && (#[trigger] s.drop_first()[j]).0@
                == n;
            assert(s[j + 1].0@ == n);
        }
    }
}

/// Under unique keys, the entry-by-entry scan and the name-to-state map agree
/// on which names are unresolved.
pub proof fn lemma_unresolved_model(s: Seq<(String, ConstantType)>, exempt: bool, n: Seq<char>)
    requires
        keys_unique(s),
    ensures
        spec_unresolved(s, exempt).contains(n) == model_unresolved(
            consts_model(s),
            exempt,
        ).contains(n),
{
    lemma_unresolved_contains(s, exempt, n);
    if spec_reported_among(s, s.len() as int, exempt, n) {
        let j = choose|x: int|
            0 <= x < s.len() && spec_reported(#[trigger] s[x], exempt) && s[x].0@ == n;
        assert(forall|k: int| 0 <= k < j ==> (#[trigger] s[k]).0@ != n);
        lemma_lookup_first(s, j, n);
    }
    if model_unresolved(consts_model(s), exempt).contains(n) {
        lemma_lookup_witness(s, n);
        let j = choose|j: int| 0 <= j < s.len() && (#[trigger] s[j]).0@ == n;
        assert(forall|k: int| 0 <= k < j ==> (#[trigger] s[k]).0@ != n);
        lemma_lookup_first(s, j, n);
        assert(spec_reported(s[j], exempt));
    }
}

/// Whether one entry is reported by the unresolved scan.
pub open spec fn spec_reported(p: (String, ConstantType), exempt: bool) -> bool {
    p.1 == ConstantType::Unknown && !(exempt && is_default_name(p.0@))
}

/// Whether a name is reported among the first `k` entries.
pub open spec fn spec_reported_among(
    s: Seq<(String, ConstantType)>,
    k: int,
    exempt: bool,
    n: Seq<char>,
) -> bool {
    exists|j: int| 0 <= j < k && spec_reported(#[trigger] s[j], exempt) && s[j].0@ == n
}

/// The unresolved list holds a name exactly when some entry reports it.
proof fn lemma_unresolved_contains(s: Seq<(String, ConstantType)>, exempt: bool, n: Seq<char>)
    ensures
        spec_unresolved(s, exempt).contains(n) == spec_reported_among(s, s.len() as int, exempt, n),
    decreases s.len(),
{
    if s.len() == 0 {
        assert(!spec_unresolved(s, exempt).contains(n));
    } else {
        let rest = spec_unresolved(s.drop_first(), exempt);
        lemma_unresolved_contains(s.drop_first(), exempt, n);
        assert(forall|j: int|
            0 <= j < s.drop_first().len() ==> #[trigger] s.drop_first()[j] == s[j + 1]);
        if spec_reported(s[0], exempt) {
            let u = seq![s[0].0@] + rest;
            assert(spec_unresolved(s, exempt) == u);
            if u.contains(n) {
                let w = choose|x: int| 0 <= x < u.len() && u[x] == n;
                if w == 0 {
                    assert(spec_reported(s[0], exempt) && s[0].0@ == n);
                } else {
                    assert(rest[w - 1] == n);
                    assert(rest.contains(n));
                }
            }
            if s[0].0@ == n {
                assert(u[0] == n);
            }
            if rest.contains(n) {
                let w = choose|x: int| 0 <= x < rest.len() && rest[x] == n;
                assert(u[w + 1] == n);
            }
            if spec_reported_among(s, s.len() as int, exempt, n) {
                let j = choose|x: int|
                    0 <= x < s.len() && spec_reported(#[trigger] s[x], exempt) && s[x].0@ == n;
                if j > 0 {
                    assert(spec_reported(s.drop_first()[j - 1], exempt));
                    assert(spec_reported_among(
                        s.drop_first(),
                        s.drop_first().len() as int,
                        exempt,
                        n,
                    ));
                }
            }
            if spec_reported_among(s.drop_first(), s.drop_first().len() as int, exempt, n) {
                let j = choose|x: int|
                    0 <= x < s.drop_first().len() && spec_reported(
                        #[trigger] s.drop_first()[x],
                        exempt,
                    ) && s.drop_first()[x].0@ == n;
                assert(spec_reported(s[j + 1], exempt) && s[j + 1].0@ == n);
            }
        } else {
            assert(spec_unresolved(s, exempt) == rest);
            if spec_reported_among(s, s.len() as int, exempt, n) {
                let j = choose|x: int|
                    0 <= x < s.len() && spec_reported(#[trigger] s[x], exempt) && s[x].0@ == n;
                assert(j != 0);
                assert(spec_reported(s.drop_first()[j - 1], exempt));
            }
            if spec_reported_among(s.drop_first(), s.drop_first().len() as int, exempt, n) {
                let j = choose|x: int|
                    0 <= x < s.drop_first().len() && spec_reported(
                        #[trigger] s.drop_first()[x],
                        exempt,
                    ) && s.drop_first()[x].0@ == n;
                assert(spec_reported(s[j + 1], exempt) && s[j + 1].0@ == n);
            }
        }
    }
}

// ---------------------------------------------------------------------------
// The tree.
// ---------------------------------------------------------------------------

#[derive(Debug)]
pub struct ProgramTree {
    /// The root file this tree was grown for.
    pub file_name: String,
    /// Every constant and label, by name; names are unique.
    pub constants: Vec<(String, ConstantType)>,
    /// The segments, ordered by discovery, append-only.
    pub segments: Vec<ProgramSegment>,
    /// The files already merged into this tree, in ascending name order.
    pub imports: Vec<String>,
    /// Counter behind the unique names of auto-created segments.
    pub auto_label_id: u32,
    /// Whether the default register aliases are injected at completion.
    pub allow_defaults: bool,
}

impl ProgramTree {
    /// Names unique, merged files sorted, every segment fit for validation.
    pub open spec fn wf(&self) -> bool {
        &&& keys_unique(self.constants@)
        &&& names_sorted(self.imports@)
        &&& forall|k: int| 0 <= k < self.segments@.len() ==> (#[trigger] self.segments@[k]).wf()
    }

    pub fn new(name: String) -> (r: ProgramTree)
        ensures
            r.file_name@ == name@,
            r.constants@ == Seq::<(String, ConstantType)>::empty(),
            r.segments@ == Seq::<ProgramSegment>::empty(),
            r.imports@.len() == 1 && r.imports@[0]@ == name@,
            r.imports@ == seq![name],
            r.auto_label_id == 0,
            r.allow_defaults == true,
            r.wf(),
    {
        let file_name = name.clone();
        let mut imports: Vec<String> = Vec::new();
        imports.push(name);
        ProgramTree {
            file_name,
            constants: Vec::new(),
            segments: Vec::new(),
            imports,
            auto_label_id: 0,
            allow_defaults: true,
        }
    }

    /// Whether `key` is already declared (or referenced).
    pub fn has_const(&self, key: &str) -> (r: bool)
        ensures
            r == (spec_lookup(self.constants@, key@) is Some),
    {
        let mut k: usize = 0;
        loop
            invariant
                k <= self.constants@.len(),
                forall|j: int| 0 <= j < k ==> (#[trigger] self.constants@[j]).0@ != key@,
            decreases self.constants@.len() - k,
        {
            if k >= self.constants.len() {
                proof {
                    lemma_lookup_absent(self.constants@, key@);
                }
                return false;
            }
            if str_eq(self.constants[k].0.as_str(), key) {
                proof {
                    lemma_lookup_first(self.constants@, k as int, key@);
                }
                return true;
            }
            k += 1;
        }
    }

    /// The state bound to `key`, if any.
    pub fn resolve_const(&self, key: &str) -> (r: Option<ConstantType>)
        ensures
            r == spec_lookup(self.constants@, key@),
    {
        let mut k: usize = 0;
        loop
            invariant
                k <= self.constants@.len(),
                forall|j: int| 0 <= j < k ==> (#[trigger] self.constants@[j]).0@ != key@,
            decreases self.constants@.len() - k,
        {
            if k >= self.constants.len() {
                proof {
                    lemma_lookup_absent(self.constants@, key@);
                }
                return None;
            }
            if str_eq(self.constants[k].0.as_str(), key) {
                proof {
                    lemma_lookup_first(self.constants@, k as int, key@);
                }
                return Some(self.constants[k].1);
            }
            k += 1;
        }
    }

    /// Binds `key` to `val`, replacing any earlier state of the same name.
    pub fn add_const(&mut self, key: String, val: ConstantType)
        requires
            keys_unique(old(self).constants@),
        ensures
            keys_unique(final(self).constants@),
            spec_lookup(final(self).constants@, key@) == Some(val),
            forall|n: Seq<char>|
                n != key@ ==> #[trigger] spec_lookup(final(self).constants@, n) == spec_lookup(
                    old(self).constants@,
                    n,
                ),
            final(self).file_name == old(self).file_name,
            final(self).segments == old(self).segments,
            final(self).imports == old(self).imports,
            final(self).auto_label_id == old(self).auto_label_id,
            final(self).allow_defaults == old(self).allow_defaults,
    {
        let ghost s0 = self.constants@;
        let mut k: usize = 0;
        loop
            invariant
                s0 == old(self).constants@,
                keys_unique(s0),
                self.constants@ == s0,
                self.file_name == old(self).file_name,
                self.segments == old(self).segments,
                self.imports == old(self).imports,
                self.auto_label_id == old(self).auto_label_id,
                self.allow_defaults == old(self).allow_defaults,
                k <= self.constants@.len(),
                forall|j: int| 0 <= j < k ==> (#[trigger] self.constants@[j]).0@ != key@,
            ensures
                self.constants@ == s0,
                self.file_name == old(self).file_name,
                self.segments == old(self).segments,
                self.imports == old(self).imports,
                self.auto_label_id == old(self).auto_label_id,
                self.allow_defaults == old(self).allow_defaults,
                forall|j: int| 0 <= j < s0.len() ==> (#[trigger] s0[j]).0@ != key@,
            decreases self.constants@.len() - k,
        {
            if k >= self.constants.len() {
                break;
            }
            if str_eq(self.constants[k].0.as_str(), key.as_str()) {
                // Replace in place: the name keeps its slot, the state changes.
                self.constants.set(k, (key, val));
                proof {
                    let s1 = self.constants@;
                    assert(s1.len() == s0.len());
                    assert forall|i: int, j: int| 0 <= i < j < s1.len() implies (
                    #[trigger] s1[i]).0@ != (#[trigger] s1[j]).0@ by {
                        assert(s0[i].0@ != s0[j].0@);
                        assert(s1[i].0@ == s0[i].0@ && s1[j].0@ == s0[j].0@);
                    }
                    lemma_lookup_first(s1, k as int, key@);
                    assert forall|n: Seq<char>| n != key@ implies #[trigger] spec_lookup(s1, n)
                        == spec_lookup(s0, n) by {
                        lemma_lookup_frame(s0, s1, n);
                    }
                }
                return;
            }
            k += 1;
        }
        self.constants.push((key, val));
        proof {
            let s1 = self.constants@;
            assert(forall|j: int| 0 <= j < s0.len() ==> (#[trigger] s1[j]) == s0[j]);
            assert forall|i: int, j: int| 0 <= i < j < s1.len() implies (#[trigger] s1[i]).0@ != (
            #[trigger] s1[j]).0@ by {
                if j < s0.len() {
                    assert(s0[i].0@ != s0[j].0@);
                } else {
                    assert(s1[j].0@ == key@);
                    assert(s0[i].0@ != key@);
                }
            }
            lemma_lookup_first(s1, s0.len() as int, key@);
            assert forall|n: Seq<char>| n != key@ implies #[trigger] spec_lookup(s1, n)
                == spec_lookup(s0, n) by {
                assert(s1 =~= s0.push(s1.last()));
                lemma_lookup_push(s0, s1.last(), n);
            }
        }
    }

    /// Checks that every name referenced anywhere has been resolved. Returns
    /// the unresolved names, in declaration order, if any are left. An
    /// import's scan (`is_child_node`) exempts default alias names while
    /// defaults are still allowed, since defaults are injected only at root
    /// completion.
    pub fn check_all_resolved(&self, is_child_node: bool) -> (r: Result<(), Vec<String>>)
        ensures
            match r {
                Ok(()) => spec_unresolved(self.constants@, is_child_node && self.allow_defaults)
                    =~= Seq::<Seq<char>>::empty(),
                Err(v) => {
                    // Exactly the unresolved names, each once, in ascending
                    // order (which determines the list).
                    &&& v@.len() > 0
                    &&& names_sorted(v@)
                    &&& forall|n: Seq<char>|
                        #[trigger] spec_name_mem(v@, n) == spec_unresolved(
                            self.constants@,
                            is_child_node && self.allow_defaults,
                        ).contains(n)
                },
            },
    {
        let exempt = is_child_node && self.allow_defaults;
        let ghost s = self.constants@;
        let mut unresolved: Vec<String> = Vec::new();
        let mut k: usize = 0;
        loop
            invariant
                k <= s.len(),
                s == self.constants@,
                exempt == (is_child_node && self.allow_defaults),
                names_sorted(unresolved@),
                forall|n: Seq<char>|
                    #[trigger] spec_name_mem(unresolved@, n) == spec_reported_among(
                        s,
                        k as int,
                        exempt,
                        n,
                    ),
            ensures
                names_sorted(unresolved@),
                forall|n: Seq<char>|
                    #[trigger] spec_name_mem(unresolved@, n) == spec_reported_among(
                        s,
                        s.len() as int,
                        exempt,
                        n,
                    ),
            decreases s.len() - k,
        {
            if k >= self.constants.len() {
                break;
            }
            let is_unknown = matches!(self.constants[k].1, ConstantType::Unknown);
            if is_unknown && !(exempt && default_name(self.constants[k].0.as_str())) {
                let name = self.constants[k].0.clone();
                let ghost before = unresolved@;
                insert_name_sorted(&mut unresolved, name);
                proof {
                    assert forall|n: Seq<char>| #[trigger]
                        spec_name_mem(unresolved@, n) == spec_reported_among(
                        s,
                        k as int + 1,
                        exempt,
                        n,
                    ) by {
                        if spec_name_mem(unresolved@, n) {
                            if spec_name_mem(before, n) {
                                let j = choose|x: int|
                                    0 <= x < k && spec_reported(#[trigger] s[x], exempt)
                                        && s[x].0@ == n;
                                assert(spec_reported(s[j], exempt) && s[j].0@ == n);
                            } else {
                                assert(n == s[k as int].0@);
                                assert(spec_reported(s[k as int], exempt));
                            }
                        }
                        if spec_reported_among(s, k as int + 1, exempt, n) {
                            let j = choose|x: int|
                                0 <= x < k + 1 && spec_reported(#[trigger] s[x], exempt)
                                    && s[x].0@ == n;
                            if j < k {
                                assert(spec_reported_among(s, k as int, exempt, n));
                            } else {
                                assert(n == s[k as int].0@);
                            }
                        }
                    }
                }
            } else {
                proof {
                    assert forall|n: Seq<char>| #[trigger]
                        spec_name_mem(unresolved@, n) == spec_reported_among(
                        s,
                        k as int + 1,
                        exempt,
                        n,
                    ) by {
                        if spec_name_mem(unresolved@, n) {
                            let j = choose|x: int|
                                0 <= x < k && spec_reported(#[trigger] s[x], exempt) && s[x].0@
                                    == n;
                            assert(spec_reported(s[j], exempt) && s[j].0@ == n);
                        }
                        if spec_reported_among(s, k as int + 1, exempt, n) {
                            let j = choose|x: int|
                                0 <= x < k + 1 && spec_reported(#[trigger] s[x], exempt)
                                    && s[x].0@ == n;
                            assert(j != k);
                            assert(spec_reported_among(s, k as int, exempt, n));
                        }
                    }
                }
            }
            k += 1;
        }
        if unresolved.len() == 0 {
            proof {
                let u = spec_unresolved(s, exempt);
                assert(u =~= Seq::<Seq<char>>::empty()) by {
                    if u.len() > 0 {
                        assert(u.contains(u[0]));
                        lemma_unresolved_contains(s, exempt, u[0]);
                        assert(spec_name_mem(unresolved@, u[0]));
                    }
                }
            }
            Ok(())
        } else {
            proof {
                assert forall|n: Seq<char>| #[trigger]
                    spec_name_mem(unresolved@, n) == spec_unresolved(s, exempt).contains(n) by {
                    lemma_unresolved_contains(s, exempt, n);
                }
            }
            Err(unresolved)
        }
    }

    /// Counts the entries that are not labels: the value constants, the
    /// defaults among them once they are injected.
    pub fn count_non_labels(&self) -> (r: usize)
        ensures
            r == spec_non_label_count(self.constants@),
    {
        let ghost s = self.constants@;
        let mut count: usize = 0;
        let mut k: usize = 0;
        proof {
            assert(s.skip(0) =~= s);
        }
        loop
            invariant
                s == self.constants@,
                k <= s.len(),
                count <= k,
                count + spec_non_label_count(s.skip(k as int)) == spec_non_label_count(s),
            ensures
                count == spec_non_label_count(s),
            decreases s.len() - k,
        {
            proof {
                if k < s.len() {
                    assert(s.skip(k as int).drop_first() =~= s.skip(k as int + 1));
                    assert(s.skip(k as int)[0] == s[k as int]);
                }
            }
            if k >= self.constants.len() {
                proof {
                    assert(s.skip(k as int) =~= Seq::<(String, ConstantType)>::empty());
                }
                break;
            }
            if !matches!(self.constants[k].1, ConstantType::Label) {
                count += 1;
            }
            k += 1;
        }
        count
    }

    /// Injects the default register aliases, when they are still allowed.
    /// Only run on the root tree, once, after every file has been parsed. A
    /// default wins over a user constant of the same name.
    #[verifier::rlimit(60)]
    pub fn complete(&mut self)
        requires
            keys_unique(old(self).constants@),
        ensures
            keys_unique(final(self).constants@),
            final(self).file_name == old(self).file_name,
            final(self).segments == old(self).segments,
            final(self).imports == old(self).imports,
            final(self).auto_label_id == old(self).auto_label_id,
            final(self).allow_defaults == old(self).allow_defaults,
            !old(self).allow_defaults ==> final(self).constants@ == old(self).constants@,
            old(self).allow_defaults ==> forall|n: Seq<char>|
                #[trigger] spec_lookup(final(self).constants@, n) == (match spec_default_value(n) {
                    Some(v) => Some(ConstantType::Value(v)),
                    None => spec_lookup(old(self).constants@, n),
                }),
            old(self).allow_defaults ==> consts_model(final(self).constants@)
                =~= spec_inject_defaults(consts_model(old(self).constants@)),
            !old(self).allow_defaults ==> consts_model(final(self).constants@) =~= consts_model(
                old(self).constants@,
            ),
    {
        if !self.allow_defaults {
            return;
        }
        self.add_const(String::from_str("A"), ConstantType::Value(0));
        self.add_const(String::from_str("rA"), ConstantType::Value(0));
        self.add_const(String::from_str("r0"), ConstantType::Value(0));
        self.add_const(String::from_str("B"), ConstantType::Value(1));
        self.add_const(String::from_str("rB"), ConstantType::Value(1));
        self.add_const(String::from_str("r1"), ConstantType::Value(1));
        self.add_const(String::from_str("C"), ConstantType::Value(2));
        self.add_const(String::from_str("rC"), ConstantType::Value(2));
        self.add_const(String::from_str("r2"), ConstantType::Value(2));
        self.add_const(String::from_str("X"), ConstantType::Value(3));
        self.add_const(String::from_str("rX"), ConstantType::Value(3));
        self.add_const(String::from_str("r3"), ConstantType::Value(3));
        self.add_const(String::from_str("Y"), ConstantType::Value(4));
        self.add_const(String::from_str("rY"), ConstantType::Value(4));
        self.add_const(String::from_str("r4"), ConstantType::Value(4));
        self.add_const(String::from_str("F"), ConstantType::Value(5));
        self.add_const(String::from_str("rF"), ConstantType::Value(5));
        self.add_const(String::from_str("r5"), ConstantType::Value(5));
        self.add_const(String::from_str("SP"), ConstantType::Value(6));
        self.add_const(String::from_str("rSP"), ConstantType::Value(6));
        self.add_const(String::from_str("r6"), ConstantType::Value(6));
        proof {
            assert(consts_model(self.constants@) =~= spec_inject_defaults(
                consts_model(old(self).constants@),
            ));
        }
        proof {
            // Spell every alias out: the prover needs the lengths and
            // characters of the literals to tell the 21 names apart when it
            // chains the updates below.
            reveal_strlit("A");
            reveal_strlit("rA");
            reveal_strlit("r0");
            reveal_strlit("B");
            reveal_strlit("rB");
            reveal_strlit("r1");
            reveal_strlit("C");
            reveal_strlit("rC");
            reveal_strlit("r2");
            reveal_strlit("X");
            reveal_strlit("rX");
            reveal_strlit("r3");
            reveal_strlit("Y");
            reveal_strlit("rY");
            reveal_strlit("r4");
            reveal_strlit("F");
            reveal_strlit("rF");
            reveal_strlit("r5");
            reveal_strlit("SP");
            reveal_strlit("rSP");
            reveal_strlit("r6");
            assert("A"@.len() == 1);
            assert("A"@[0] == 'A');
            assert("rA"@.len() == 2);
            assert("rA"@[0] == 'r');
            assert("rA"@[1] == 'A');
            assert("r0"@.len() == 2);
            assert("r0"@[0] == 'r');
            assert("r0"@[1] == '0');
            assert("B"@.len() == 1);
            assert("B"@[0] == 'B');
            assert("rB"@.len() == 2);
            assert("rB"@[0] == 'r');
            assert("rB"@[1] == 'B');
            assert("r1"@.len() == 2);
            assert("r1"@[0] == 'r');
            assert("r1"@[1] == '1');
            assert("C"@.len() == 1);
            assert("C"@[0] == 'C');
            assert("rC"@.len() == 2);
            assert("rC"@[0] == 'r');
            assert("rC"@[1] == 'C');
            assert("r2"@.len() == 2);
            assert("r2"@[0] == 'r');
            assert("r2"@[1] == '2');
            assert("X"@.len() == 1);
            assert("X"@[0] == 'X');
            assert("rX"@.len() == 2);
            assert("rX"@[0] == 'r');
            assert("rX"@[1] == 'X');
            assert("r3"@.len() == 2);
            assert("r3"@[0] == 'r');
            assert("r3"@[1] == '3');
            assert("Y"@.len() == 1);
            assert("Y"@[0] == 'Y');
            assert("rY"@.len() == 2);
            assert("rY"@[0] == 'r');
            assert("rY"@[1] == 'Y');
            assert("r4"@.len() == 2);
            assert("r4"@[0] == 'r');
            assert("r4"@[1] == '4');
            assert("F"@.len() == 1);
            assert("F"@[0] == 'F');
            assert("rF"@.len() == 2);
            assert("rF"@[0] == 'r');
            assert("rF"@[1] == 'F');
            assert("r5"@.len() == 2);
            assert("r5"@[0] == 'r');
            assert("r5"@[1] == '5');
            assert("SP"@.len() == 2);
            assert("SP"@[0] == 'S');
            assert("SP"@[1] == 'P');
            assert("rSP"@.len() == 3);
            assert("rSP"@[0] == 'r');
            assert("rSP"@[1] == 'S');
            assert("rSP"@[2] == 'P');
            assert("r6"@.len() == 2);
            assert("r6"@[0] == 'r');
            assert("r6"@[1] == '6');
        }
    }

    /// Whether `file_name` was already merged into this tree. While defaults
    /// are allowed, a default alias name also counts as merged, so a file of
    /// that name is never pulled in.
    pub fn has_import(&self, file_name: &str) -> (r: bool)
        ensures
            r == (spec_name_mem(self.imports@, file_name@) || (self.allow_defaults
                && is_default_name(file_name@))),
    {
        let mut k: usize = 0;
        while k < self.imports.len()
            invariant
                k <= self.imports@.len(),
                forall|j: int| 0 <= j < k ==> (#[trigger] self.imports@[j])@ != file_name@,
            decreases self.imports@.len() - k,
        {
            if str_eq(self.imports[k].as_str(), file_name) {
                proof {
                    assert(self.imports@[k as int]@ == file_name@);
                }
                return true;
            }
            k += 1;
        }
        self.allow_defaults && default_name(file_name)
    }

    /// Records `file_name` as merged, keeping the set sorted and free of
    /// duplicates.
    pub fn add_import(&mut self, file_name: String)
        requires
            names_sorted(old(self).imports@),
        ensures
            names_sorted(final(self).imports@),
            forall|n: Seq<char>|
                #[trigger] spec_name_mem(final(self).imports@, n) == (spec_name_mem(
                    old(self).imports@,
                    n,
                ) || n == file_name@),
            final(self).file_name == old(self).file_name,
            final(self).constants == old(self).constants,
            final(self).segments == old(self).segments,
            final(self).auto_label_id == old(self).auto_label_id,
            final(self).allow_defaults == old(self).allow_defaults,
    {
        insert_name_sorted(&mut self.imports, file_name);
    }
}

/// Inserts `name` into an ascending name list, keeping it sorted; a name
/// already present is dropped.
pub fn insert_name_sorted(v: &mut Vec<String>, name: String)
    requires
        names_sorted(old(v)@),
    ensures
        names_sorted(final(v)@),
        forall|n: Seq<char>|
            #[trigger] spec_name_mem(final(v)@, n) == (spec_name_mem(old(v)@, n) || n == name@),
{
    let ghost s0 = v@;
    let mut k: usize = 0;
    loop
        invariant
            s0 == old(v)@,
            v@ == s0,
            k <= v@.len(),
            forall|j: int| 0 <= j < k ==> lex_lt((#[trigger] v@[j])@, name@),
        ensures
            v@ == s0,
            k <= s0.len(),
            forall|j: int| 0 <= j < k ==> lex_lt((#[trigger] s0[j])@, name@),
            k == s0.len() || !lex_lt(s0[k as int]@, name@),
        decreases v@.len() - k,
    {
        if k >= v.len() {
            break;
        }
        if str_lt(v[k].as_str(), name.as_str()) {
            k += 1;
        } else {
            break;
        }
    }
    if k < v.len() && str_eq(v[k].as_str(), name.as_str()) {
        // Already there.
        proof {
            assert(s0[k as int]@ == name@);
            assert(spec_name_mem(s0, name@));
        }
        return;
    }
    proof {
        if k < v@.len() {
            lemma_lex_lt_trichotomy(v@[k as int]@, name@);
        }
    }
    v.insert(k, name);
    proof {
        let s1 = v@;
        assert forall|i: int, j: int| 0 <= i < j < s1.len() implies lex_lt(
            (#[trigger] s1[i])@,
            (#[trigger] s1[j])@,
        ) by {
            let ki = k as int;
            if i < ki && j == ki {
            } else if i < ki && j > ki {
                assert(s1[i] == s0[i] && s1[j] == s0[j - 1]);
            } else if i == ki && j > ki {
                if j - 1 > ki {
                    lemma_lex_lt_trans(name@, s0[ki]@, s0[j - 1]@);
                }
            } else if i > ki {
                assert(s1[i] == s0[i - 1] && s1[j] == s0[j - 1]);
            } else {
                assert(s1[i] == s0[i] && s1[j] == s0[j]);
            }
        }
        assert forall|n: Seq<char>| #[trigger]
            spec_name_mem(s1, n) == (spec_name_mem(s0, n) || n == name@) by {
            let ki = k as int;
            if spec_name_mem(s0, n) {
                let w = choose|x: int| 0 <= x < s0.len() && s0[x]@ == n;
                if w < ki {
                    assert(s1[w]@ == n);
                } else {
                    assert(s1[w + 1]@ == n);
                }
            }
            if n == name@ {
                assert(s1[ki]@ == n);
            }
            if spec_name_mem(s1, n) {
                let w = choose|x: int| 0 <= x < s1.len() && s1[x]@ == n;
                if w < ki {
                    assert(s0[w]@ == n);
                } else if w == ki {
                } else {
                    assert(s0[w - 1]@ == n);
                }
            }
        }
    }
}

/// Lookups of other names see no difference between two tables whose entries
/// bear the same names, differing at most in the state of one name.
proof fn lemma_lookup_frame(
    s0: Seq<(String, ConstantType)>,
    s1: Seq<(String, ConstantType)>,
    n: Seq<char>,
)
    requires
        s0.len() == s1.len(),
        forall|k: int| 0 <= k < s0.len() ==> (#[trigger] s0[k]).0@ == (#[trigger] s1[k]).0@,
        forall|k: int| 0 <= k < s0.len() ==> s0[k].0@ == n ==> s0[k] == s1[k],
    ensures
        spec_lookup(s0, n) == spec_lookup(s1, n),
    decreases s0.len(),
{
    if s0.len() > 0 {
        if s0[0].0@ == n {
        } else {
            assert(forall|k: int|
                0 <= k < s0.drop_first().len() ==> (#[trigger] s0.drop_first()[k]) == s0[k + 1]);
            assert(forall|k: int|
                0 <= k < s1.drop_first().len() ==> (#[trigger] s1.drop_first()[k]) == s1[k + 1]);
            lemma_lookup_frame(s0.drop_first(), s1.drop_first(), n);
        }
    }
}

} // verus!
