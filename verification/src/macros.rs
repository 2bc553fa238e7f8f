//! Macro definition and expansion tracking: definition hashes, the macros
//! each definition refers to, expansion bookkeeping, and a state hash over
//! all definitions.

use vstd::prelude::*;
use vstd::utf8::encode_utf8;
use crate::encoding::push_utf8;
use crate::hashing::{HashComputation, tex_source_hash, sha256_u128, macro_record_bytes};
use crate::string_map::{StringMap, compare_keys, KeyOrder, key_lt, keys_increasing, entries_map, lemma_entries_map_contains, string_views};
use crate::dependency::{DependencyKey, DependencyKeyView, DependencyType, DependencyTypeView};
use crate::text::{chars_of, char_is_alphabetic, spec_is_alphabetic, string_from_chars};

verus! {

/// A macro definition with tracking metadata.
#[derive(Clone, Debug)]
pub struct MacroDefinition {
    /// The macro name (e.g., "section", "newcommand")
    pub name: String,
    /// The macro definition body
    pub definition: String,
    /// Number of parameters the macro accepts
    pub param_count: u8,
    /// Hash of the definition for change detection
    pub definition_hash: u128,
    /// Usage count for popularity tracking
    pub usage_count: u64,
    /// When this macro was last defined
    pub defined_at: u64,
    /// Defined macros this definition refers to, in byte order, no repeats
    pub dependencies: Vec<String>,
}

/// The abstract value of a `MacroDefinition`.
pub struct MacroDefinitionView {
    pub name: Seq<char>,
    pub definition: Seq<char>,
    pub param_count: u8,
    pub definition_hash: u128,
    pub usage_count: u64,
    pub defined_at: u64,
    pub dependencies: Seq<Seq<char>>,
}

impl DeepView for MacroDefinition {
    type V = MacroDefinitionView;

    open spec fn deep_view(&self) -> MacroDefinitionView {
        MacroDefinitionView {
            name: self.name@,
            definition: self.definition@,
            param_count: self.param_count,
            definition_hash: self.definition_hash,
            usage_count: self.usage_count,
            defined_at: self.defined_at,
            dependencies: string_views(self.dependencies@),
        }
    }
}

impl MacroDefinition {
    /// A copy with the same view.
    fn duplicate(&self) -> (r: MacroDefinition)
        ensures
            r.deep_view() == self.deep_view(),
    {
        let mut deps: Vec<String> = Vec::new();
        let n = self.dependencies.len();
        let mut i: usize = 0;
        while i < n
            invariant
                n == self.dependencies@.len(),
                i <= n,
                string_views(deps@) == string_views(self.dependencies@).subrange(0, i as int),
            decreases n - i,
        {
            let c = self.dependencies[i].clone();
            let ghost before = deps@;
            deps.push(c);
            proof {
                assert(c@ == self.dependencies@[i as int]@);
                assert(deps@ == before.push(c));
                assert(string_views(deps@) =~= string_views(before).push(c@));
                assert(string_views(self.dependencies@).subrange(0, i + 1) =~= string_views(self.dependencies@).subrange(0, i as int).push(self.dependencies@[i as int]@));
            }
            i += 1;
        }
        proof {
            assert(string_views(self.dependencies@).subrange(0, n as int) =~= string_views(self.dependencies@));
        }
        MacroDefinition {
            name: self.name.clone(),
            definition: self.definition.clone(),
            param_count: self.param_count,
            definition_hash: self.definition_hash,
            usage_count: self.usage_count,
            defined_at: self.defined_at,
            dependencies: deps,
        }
    }
}

/// One macro expansion in progress or completed.
#[derive(Clone, Debug)]
pub struct MacroExpansion {
    /// Name of the macro being expanded
    pub macro_name: String,
    /// Arguments passed to the macro
    pub arguments: Vec<String>,
    /// Position in source where expansion occurred
    pub source_position: usize,
    /// Hash of the expanded content (zero until the expansion ends)
    pub expansion_hash: u128,
    /// Timestamp when expansion started
    pub started_at: u64,
    /// Dependencies accessed during expansion
    pub accessed_dependencies: Vec<DependencyKey>,
}

/// Statistics about macro usage.
#[derive(Clone, Debug)]
pub struct MacroStatistics {
    /// Total number of defined macros
    pub total_macros: usize,
    /// Total number of macro expansions performed
    pub total_expansions: u64,
    /// Most frequently used macro and its usage count
    pub most_used_macro: Option<(String, u64)>,
    /// Current depth of nested macro expansions
    pub current_expansion_depth: usize,
}

/// End of the run of alphabetic characters starting at `k`.
pub open spec fn alpha_run_end(s: Seq<char>, k: int) -> int
    decreases s.len() - k,
{
    if k < 0 || k >= s.len() || !spec_is_alphabetic(s[k]) {
        if k < 0 { 0 } else if k > s.len() { s.len() as int } else { k }
    } else {
        alpha_run_end(s, k + 1)
    }
}

/// The names written `\name` in `s` from position `i` on, in order: a
/// backslash followed by a run of alphabetic characters (an empty run
/// names nothing).
pub open spec fn control_words(s: Seq<char>, i: int) -> Seq<Seq<char>>
    decreases s.len() - i,
{
    if i < 0 || i >= s.len() {
        Seq::empty()
    } else if s[i] == '\\' {
        let j = alpha_run_end(s, i + 1);
        let rest = if i < j <= s.len() {
            control_words(s, j)
        } else {
            Seq::empty()
        };
        if j > i + 1 {
            seq![s.subrange(i + 1, j)] + rest
        } else {
            rest
        }
    } else {
        control_words(s, i + 1)
    }
}

/// Names as strictly increasing keys: sorted, no repeats.
pub open spec fn names_increasing(s: Seq<Seq<char>>) -> bool {
    forall|i: int, j: int| 0 <= i < j < s.len() ==> key_lt(#[trigger] s[i], #[trigger] s[j])
}

/// The macros a definition refers to: defined names written `\name` in
/// it, sorted, without repeats.
pub open spec fn is_dependency_list(
    deps: Seq<Seq<char>>,
    definition: Seq<char>,
    defined: Set<Seq<char>>,
) -> bool {
    &&& names_increasing(deps)
    &&& forall|n: Seq<char>| #[trigger] deps.contains(n) <==> (control_words(definition, 0).contains(n) && defined.contains(n))
}

/// `(name, definition)` pairs of the definitions, in name order.
pub open spec fn definition_texts(s: Seq<(Seq<char>, MacroDefinitionView)>) -> Seq<(Seq<char>, Seq<char>)> {
    s.map_values(|e: (Seq<char>, MacroDefinitionView)| (e.0, e.1.definition))
}

/// Tracks macro definitions, expansions, and a hash of all definitions.
#[derive(Debug)]
pub struct MacroTracker {
    /// Macro definitions by name
    pub macro_definitions: StringMap<MacroDefinition>,
    /// Macro expansions recorded so far, oldest first
    pub expansion_stack: Vec<MacroExpansion>,
    /// Hash of all macro definitions
    pub macro_state_hash: u128,
    /// Whether any definition changed since the last `mark_clean`
    pub dirty: bool,
}

impl MacroTracker {
    /// Definitions well formed: sorted by name, each under its own name.
    pub open spec fn wf(&self) -> bool {
        &&& self.macro_definitions.wf()
        &&& forall|i: int| 0 <= i < self.macro_definitions.entry_seq().len() ==>
            (#[trigger] self.macro_definitions.entry_seq()[i]).1.name == self.macro_definitions.entry_seq()[i].0
    }

    /// The hash of the given definitions: SHA-256 of their `name=body;`
    /// records in name order.
    pub open spec fn definitions_hash(defs: Seq<(Seq<char>, MacroDefinitionView)>) -> u128 {
        sha256_u128(macro_record_bytes(definition_texts(defs)))
    }

    /// The names defined so far.
    pub open spec fn defined_names(&self) -> Set<Seq<char>> {
        self.macro_definitions.contents().dom()
    }

    /// An empty tracker.
    pub fn new() -> (t: Self)
        ensures
            t.wf(),
            t.macro_definitions.entry_seq().len() == 0,
            t.expansion_stack@.len() == 0,
            t.macro_state_hash == 0,
            !t.dirty,
    {
        MacroTracker {
            macro_definitions: StringMap::new(),
            expansion_stack: Vec::new(),
            macro_state_hash: 0,
            dirty: false,
        }
    }

    /// Number of defined macros.
    pub fn macro_count(&self) -> (n: usize)
        ensures
            n == self.macro_definitions.entry_seq().len(),
    {
        self.macro_definitions.len()
    }

    /// The definition of a macro, if it is defined.
    pub fn get_macro(&self, name: &str) -> (r: Option<&MacroDefinition>)
        requires
            self.wf(),
        ensures
            r is Some <==> self.macro_definitions.contents().contains_key(name@),
            r is Some ==> r.unwrap().deep_view() == self.macro_definitions.contents()[name@],
    {
        self.macro_definitions.get(name)
    }

    /// No usage count is at its maximum, so another expansion cannot
    /// overflow.
    pub open spec fn can_expand(&self) -> bool {
        forall|i: int| 0 <= i < self.macro_definitions.entry_seq().len() ==>
            (#[trigger] self.macro_definitions.entry_seq()[i]).1.usage_count < u64::MAX
    }

    /// What defining `name` as `definition` with `param_count` parameters
    /// does to a tracker: the name is defined with that text, its hash and
    /// its dependencies on names defined before; every other definition
    /// stays; the tracker turns dirty when the definition is new or its text
    /// changed; and the state hash is recomputed over all definitions.
    pub open spec fn defines(
        before: MacroTracker,
        after: MacroTracker,
        name: Seq<char>,
        definition: Seq<char>,
        param_count: u8,
        now_us: u64,
    ) -> bool {
        &&& (after.defined_names() == before.defined_names().insert(name))
        &&& (forall|k: Seq<char>| k != name && #[trigger] before.macro_definitions.contents().contains_key(k)
                ==> after.macro_definitions.contents()[k] == before.macro_definitions.contents()[k])
        &&& (after.macro_definitions.contents()[name].name == name)
        &&& (after.macro_definitions.contents()[name].definition == definition)
        &&& (after.macro_definitions.contents()[name].param_count == param_count)
        &&& (after.macro_definitions.contents()[name].definition_hash == tex_source_hash(definition))
        &&& (after.macro_definitions.contents()[name].usage_count == 0)
        &&& (after.macro_definitions.contents()[name].defined_at == now_us)
        &&& (is_dependency_list(
                after.macro_definitions.contents()[name].dependencies,
                definition,
                before.defined_names(),
            ))
        &&& (after.dirty == (before.dirty || !before.macro_definitions.contents().contains_key(name)
                || before.macro_definitions.contents()[name].definition_hash != tex_source_hash(definition)))
        &&& (after.macro_state_hash == Self::definitions_hash(after.macro_definitions.entry_seq()))
        &&& (after.expansion_stack@ == before.expansion_stack@)
    }

    /// Records a macro definition, replacing any earlier one of the same
    /// name (whose usage count restarts at zero). Marks the tracker dirty
    /// when the macro is new or its definition hash changed, and updates
    /// the state hash.  `now_us` is the current time in microseconds, as
    /// the caller reads it; it becomes the definition's time.
    pub fn define_macro(&mut self, name: String, definition: String, param_count: u8, now_us: u64)
        requires
            old(self).wf(),
        ensures
            final(self).wf(),
            Self::defines(*old(self), *final(self), name@, definition@, param_count, now_us),
    {
        let definition_hash = HashComputation::hash_tex_source(definition.as_str());
        let dependencies = self.extract_macro_dependencies(definition.as_str());
        let changed = match self.macro_definitions.get(name.as_str()) {
            Some(existing) => existing.definition_hash != definition_hash,
            None => true,
        };
        if changed {
            self.dirty = true;
        }
        let key = name.clone();
        let macro_def = MacroDefinition {
            name,
            definition,
            param_count,
            definition_hash,
            usage_count: 0,
            defined_at: now_us,
            dependencies,
        };
        let ghost v = macro_def.deep_view();
        let ghost old_contents = self.macro_definitions.contents();
        self.macro_definitions.insert(key, macro_def);
        proof {
            let es = self.macro_definitions.entry_seq();
            let os = old(self).macro_definitions.entry_seq();
            crate::string_map::lemma_entries_map_index(es);
            crate::string_map::lemma_entries_map_index(os);
            assert forall|i: int| 0 <= i < es.len() implies (#[trigger] es[i]).1.name == es[i].0 by {
                let k = es[i].0;
                assert(entries_map(es).contains_key(es[i].0));
                assert(self.macro_definitions.contents()[k] == es[i].1);
                if k != v.name {
                    assert(old_contents.contains_key(k));
                    lemma_entries_map_contains(os, k);
                    let j = choose|j: int| 0 <= j < os.len() && #[trigger] os[j].0 == k;
                    assert(entries_map(os).contains_key(os[j].0));
                    assert(old_contents[k] == os[j].1);
                    assert(os[j].1.name == os[j].0);
                }
            }
            assert(self.defined_names() =~= old(self).defined_names().insert(v.name));
        }
        self.update_state_hash();
    }

    /// Recomputes the state hash from the current definitions.
    fn update_state_hash(&mut self)
        ensures
            final(self).macro_state_hash == Self::definitions_hash(old(self).macro_definitions.entry_seq()),
            final(self).macro_definitions == old(self).macro_definitions,
            final(self).expansion_stack == old(self).expansion_stack,
            final(self).dirty == old(self).dirty,
    {
        let mut bytes: Vec<u8> = Vec::new();
        let n = self.macro_definitions.len();
        let ghost texts = definition_texts(self.macro_definitions.entry_seq());
        let mut i: usize = 0;
        while i < n
            invariant
                n == self.macro_definitions.entry_seq().len(),
                texts == definition_texts(self.macro_definitions.entry_seq()),
                i <= n,
                bytes@ == macro_record_bytes(texts.subrange(0, i as int)),
            decreases n - i,
        {
            push_utf8(&mut bytes, self.macro_definitions.key_at(i).as_str());
            bytes.push(61u8);
            push_utf8(&mut bytes, self.macro_definitions.value_at(i).definition.as_str());
            bytes.push(59u8);
            proof {
                let t = texts.subrange(0, i + 1);
                assert(t.drop_last() =~= texts.subrange(0, i as int));
                assert(t.last() == texts[i as int]);
                assert(bytes@ =~= macro_record_bytes(t));
            }
            i += 1;
        }
        proof {
            assert(texts.subrange(0, n as int) =~= texts);
        }
        self.macro_state_hash = HashComputation::sha256_prefix(bytes.as_slice());
    }

    /// What beginning an expansion of `macro_name` does to a tracker: for a
    /// defined macro, a new expansion record goes on top of the stack (its
    /// index is `r`) and the macro's usage count goes up by one; for an
    /// unknown name, nothing changes and `r` is `None`.
    pub open spec fn begins_expansion(
        before: MacroTracker,
        after: MacroTracker,
        macro_name: Seq<char>,
        arguments: Seq<Seq<char>>,
        source_position: usize,
        now_us: u64,
        r: Option<usize>,
    ) -> bool {
        &&& (r is Some <==> before.macro_definitions.contents().contains_key(macro_name))
        &&& (r is None ==> after.macro_definitions == before.macro_definitions
                && after.expansion_stack@ == before.expansion_stack@)
        &&& (r is Some ==> {
                &&& r.unwrap() == before.expansion_stack@.len()
                &&& after.expansion_stack@.drop_last() == before.expansion_stack@
                &&& after.expansion_stack@.len() == before.expansion_stack@.len() + 1
                &&& after.expansion_stack@.last().macro_name@ == macro_name
                &&& string_views(after.expansion_stack@.last().arguments@) == arguments
                &&& after.expansion_stack@.last().source_position == source_position
                &&& after.expansion_stack@.last().expansion_hash == 0
                &&& after.expansion_stack@.last().started_at == now_us
                &&& after.expansion_stack@.last().accessed_dependencies@.len() == 0
                &&& after.macro_definitions.entry_seq().len() == before.macro_definitions.entry_seq().len()
                &&& forall|i: int| 0 <= i < before.macro_definitions.entry_seq().len() ==> {
                    let o = #[trigger] before.macro_definitions.entry_seq()[i];
                    let f = after.macro_definitions.entry_seq()[i];
                    &&& f.0 == o.0
                    &&& if o.0 == macro_name {
                        f.1 == MacroDefinitionView { usage_count: (o.1.usage_count + 1) as u64, ..o.1 }
                    } else {
                        f.1 == o.1
                    }
                }
            })
        &&& (after.macro_state_hash == before.macro_state_hash)
        &&& (after.dirty == before.dirty)
    }

    /// Starts an expansion of a defined macro: counts the use and records
    /// the expansion, started at `now_us` (microseconds, as the caller reads
    /// the clock). Returns its index, or `None` if the macro is not defined
    /// (nothing changes then).
    pub fn begin_expansion(
        &mut self,
        macro_name: String,
        arguments: Vec<String>,
        source_position: usize,
        now_us: u64,
    ) -> (r: Option<usize>)
        requires
            old(self).wf(),
            old(self).can_expand(),
        ensures
            final(self).wf(),
            Self::begins_expansion(*old(self), *final(self), macro_name@, string_views(arguments@), source_position, now_us, r),
    {
        let (i, found) = self.macro_definitions.position(macro_name.as_str());
        if !found {
            proof {
                lemma_entries_map_contains(self.macro_definitions.entry_seq(), macro_name@);
                if self.macro_definitions.contents().contains_key(macro_name@) {
                    let j = choose|j: int| 0 <= j < self.macro_definitions.entry_seq().len()
                        && #[trigger] self.macro_definitions.entry_seq()[j].0 == macro_name@;
                    crate::string_map::lemma_key_lt_irreflexive(macro_name@);
                }
            }
            return None;
        }
        let mut def = self.macro_definitions.value_at(i).duplicate();
        def.usage_count = def.usage_count + 1;
        let ghost old_seq = self.macro_definitions.entry_seq();
        self.macro_definitions.replace_value_at(i, def);
        proof {
            lemma_entries_map_contains(old_seq, macro_name@);
            let es = self.macro_definitions.entry_seq();
            assert forall|q: int| 0 <= q < es.len() implies (#[trigger] es[q]).1.name == es[q].0 by {
                assert(old_seq[q].1.name == old_seq[q].0);
            }
            assert forall|q: int| 0 <= q < old_seq.len() && old_seq[q].0 == macro_name@ implies q == i by {
                crate::string_map::lemma_key_lt_irreflexive(macro_name@);
                if q < i {
                    assert(key_lt(old_seq[q].0, old_seq[i as int].0));
                } else if q > i {
                    assert(key_lt(old_seq[i as int].0, old_seq[q].0));
                }
            }
        }
        let expansion = MacroExpansion {
            macro_name,
            arguments,
            source_position,
            expansion_hash: 0,
            started_at: now_us,
            accessed_dependencies: Vec::new(),
        };
        self.expansion_stack.push(expansion);
        proof {
            assert(self.expansion_stack@.drop_last() =~= old(self).expansion_stack@);
        }
        Some(self.expansion_stack.len() - 1)
    }

    /// What ending expansion `expansion_id` with `expanded_content` does to a
    /// tracker: an existing record takes the content's hash (which is also
    /// `r`), keeping its name, arguments, position, start time and accessed
    /// dependencies, and every other record stays; an unknown id changes
    /// nothing.
    pub open spec fn ends_expansion(
        before: MacroTracker,
        after: MacroTracker,
        expansion_id: usize,
        expanded_content: Seq<char>,
        r: Option<u128>,
    ) -> bool {
        &&& (r is Some <==> expansion_id < before.expansion_stack@.len())
        &&& (r is Some ==> r.unwrap() == tex_source_hash(expanded_content))
        &&& (r is Some ==> after.expansion_stack@.len() == before.expansion_stack@.len()
                && after.expansion_stack@[expansion_id as int] == (MacroExpansion {
                    expansion_hash: r.unwrap(),
                    ..before.expansion_stack@[expansion_id as int]
                })
                && forall|j: int| 0 <= j < before.expansion_stack@.len() && j != expansion_id ==>
                    #[trigger] after.expansion_stack@[j] == before.expansion_stack@[j])
        &&& (r is None ==> after.expansion_stack@ == before.expansion_stack@)
        &&& (after.macro_definitions == before.macro_definitions)
        &&& (after.macro_state_hash == before.macro_state_hash)
        &&& (after.dirty == before.dirty)
    }

    /// Completes expansion `expansion_id`, recording the SHA-256 content
    /// hash of its result; `None` (and no change) for an unknown index.
    pub fn end_expansion(&mut self, expansion_id: usize, expanded_content: &str) -> (r: Option<u128>)
        ensures
            Self::ends_expansion(*old(self), *final(self), expansion_id, expanded_content@, r),
    {
        if expansion_id < self.expansion_stack.len() {
            let expansion_hash = HashComputation::hash_tex_source(expanded_content);
            let mut e = self.expansion_stack.remove(expansion_id);
            e.expansion_hash = expansion_hash;
            self.expansion_stack.insert(expansion_id, e);
            Some(expansion_hash)
        } else {
            None
        }
    }

    /// Records that the most recent expansion read `dependency` (ignored
    /// when no expansion has been recorded).
    pub fn record_dependency_access(&mut self, dependency: DependencyKey)
        ensures
            old(self).expansion_stack@.len() == 0 ==> final(self).expansion_stack@ == old(self).expansion_stack@,
            old(self).expansion_stack@.len() > 0 ==> {
                &&& final(self).expansion_stack@.len() == old(self).expansion_stack@.len()
                &&& final(self).expansion_stack@.drop_last() == old(self).expansion_stack@.drop_last()
                &&& final(self).expansion_stack@.last().accessed_dependencies@.drop_last()
                    == old(self).expansion_stack@.last().accessed_dependencies@
                &&& final(self).expansion_stack@.last().accessed_dependencies@.last()@ == dependency@
                &&& final(self).expansion_stack@.last().macro_name == old(self).expansion_stack@.last().macro_name
                &&& final(self).expansion_stack@.last().expansion_hash == old(self).expansion_stack@.last().expansion_hash
            },
            final(self).macro_definitions == old(self).macro_definitions,
            final(self).macro_state_hash == old(self).macro_state_hash,
            final(self).dirty == old(self).dirty,
    {
        match self.expansion_stack.pop() {
            Some(mut current) => {
                let ghost d = dependency@;
                current.accessed_dependencies.push(dependency);
                self.expansion_stack.push(current);
                proof {
                    assert(self.expansion_stack@.drop_last() =~= old(self).expansion_stack@.drop_last());
                }
            },
            None => {},
        }
    }

    /// Whether any definition changed since the last `mark_clean`.
    pub fn has_changes(&self) -> (b: bool)
        ensures
            b == self.dirty,
    {
        self.dirty
    }

    /// The current macro state hash.
    pub fn get_state_hash(&self) -> (h: u128)
        ensures
            h == self.macro_state_hash,
    {
        self.macro_state_hash
    }

    /// Clears the changed flag.
    pub fn mark_clean(&mut self)
        ensures
            !final(self).dirty,
            final(self).macro_definitions == old(self).macro_definitions,
            final(self).expansion_stack == old(self).expansion_stack,
            final(self).macro_state_hash == old(self).macro_state_hash,
    {
        self.dirty = false;
    }

    /// Names of the macros whose definitions refer to `macro_name`, in
    /// name order.
    pub fn get_dependent_macros(&self, macro_name: &str) -> (r: Vec<String>)
        ensures
            string_views(r@) == dependents_in(self.macro_definitions.entry_seq(), macro_name@),
    {
        let mut r: Vec<String> = Vec::new();
        let n = self.macro_definitions.len();
        let mut i: usize = 0;
        while i < n
            invariant
                n == self.macro_definitions.entry_seq().len(),
                i <= n,
                string_views(r@) == dependents_in(self.macro_definitions.entry_seq().subrange(0, i as int), macro_name@),
            decreases n - i,
        {
            let def = self.macro_definitions.value_at(i);
            let refers = list_contains(&def.dependencies, macro_name);
            let ghost before = r@;
            if refers {
                let c = self.macro_definitions.key_at(i).clone();
                r.push(c);
                proof {
                    assert(string_views(r@) =~= string_views(before).push(c@));
                }
            }
            proof {
                let t = self.macro_definitions.entry_seq().subrange(0, i + 1);
                assert(t.drop_last() =~= self.macro_definitions.entry_seq().subrange(0, i as int));
                assert(t.last() == self.macro_definitions.entry_seq()[i as int]);
            }
            i += 1;
        }
        proof {
            assert(self.macro_definitions.entry_seq().subrange(0, n as int) =~= self.macro_definitions.entry_seq());
        }
        r
    }

    /// The macro dependency keys to invalidate when `changed_macro`
    /// changes: the macro itself (with its definition hash, or zero if it
    /// is not defined), then each macro that refers to it, in name order.
    pub fn get_invalidated_dependencies(&self, changed_macro: &str) -> (r: Vec<DependencyKey>)
        requires
            self.wf(),
        ensures
            r@.len() == 1 + dependents_in(self.macro_definitions.entry_seq(), changed_macro@).len(),
            r@[0]@ == macro_dependency(changed_macro@, self.macro_definitions.contents()),
            forall|i: int| 0 <= i < r@.len() - 1 ==> #[trigger] r@[i + 1]@ == macro_dependency(
                dependents_in(self.macro_definitions.entry_seq(), changed_macro@)[i],
                self.macro_definitions.contents(),
            ),
    {
        let mut invalidated: Vec<DependencyKey> = Vec::new();
        invalidated.push(self.macro_dependency_key(changed_macro));
        let dependents = self.get_dependent_macros(changed_macro);
        let n = dependents.len();
        let mut i: usize = 0;
        while i < n
            invariant
                self.wf(),
                n == dependents@.len(),
                string_views(dependents@) == dependents_in(self.macro_definitions.entry_seq(), changed_macro@),
                i <= n,
                invalidated@.len() == 1 + i,
                invalidated@[0]@ == macro_dependency(changed_macro@, self.macro_definitions.contents()),
                forall|j: int| 0 <= j < i ==> #[trigger] invalidated@[j + 1]@ == macro_dependency(
                    dependents_in(self.macro_definitions.entry_seq(), changed_macro@)[j],
                    self.macro_definitions.contents(),
                ),
            decreases n - i,
        {
            let k = self.macro_dependency_key(dependents[i].as_str());
            invalidated.push(k);
            proof {
                assert(string_views(dependents@)[i as int] == dependents@[i as int]@);
            }
            i += 1;
        }
        invalidated
    }

    fn macro_dependency_key(&self, name: &str) -> (k: DependencyKey)
        requires
            self.wf(),
        ensures
            k@ == macro_dependency(name@, self.macro_definitions.contents()),
    {
        let value_hash = match self.macro_definitions.get(name) {
            Some(def) => def.definition_hash,
            None => 0,
        };
        let identifier = string_from_chars(&chars_of(name));
        DependencyKey { dep_type: DependencyType::Macro, identifier, value_hash }
    }

    /// Whether `st` reports this tracker's usage: the number of macros, the
    /// total of their usage counts, the expansion depth, and the last of the
    /// most used macros with its count.
    pub open spec fn describes_usage(&self, st: MacroStatistics) -> bool {
        &&& (st.total_macros == self.macro_definitions.entry_seq().len())
        &&& (st.total_expansions == usage_total(self.macro_definitions.entry_seq()))
        &&& (st.current_expansion_depth == self.expansion_stack@.len())
        &&& (st.most_used_macro is None <==> self.macro_definitions.entry_seq().len() == 0)
        &&& (st.most_used_macro is Some ==> is_last_most_used(
                self.macro_definitions.entry_seq(),
                st.most_used_macro.unwrap().0@,
                st.most_used_macro.unwrap().1,
            ))
    }

    /// Macro count, total expansions, the most used macro (the last in
    /// name order among those used most) and the number of expansions
    /// recorded.
    pub fn get_usage_statistics(&self) -> (st: MacroStatistics)
        requires
            self.wf(),
            usage_total(self.macro_definitions.entry_seq()) <= u64::MAX,
        ensures
            self.describes_usage(st),
    {
        let n = self.macro_definitions.len();
        let ghost es = self.macro_definitions.entry_seq();
        let mut total: u64 = 0;
        let mut best: Option<usize> = None;
        let mut i: usize = 0;
        while i < n
            invariant
                n == es.len(),
                es == self.macro_definitions.entry_seq(),
                usage_total(es) <= u64::MAX,
                i <= n,
                total == usage_total(es.subrange(0, i as int)),
                best is None <==> i == 0,
                best is Some ==> best.unwrap() < i && is_last_most_used(
                    es.subrange(0, i as int),
                    es[best.unwrap() as int].0,
                    es[best.unwrap() as int].1.usage_count,
                ),
            decreases n - i,
        {
            let u = self.macro_definitions.value_at(i).usage_count;
            proof {
                let t = es.subrange(0, i + 1);
                assert(t.drop_last() =~= es.subrange(0, i as int));
                lemma_usage_total_prefix(es, i + 1);
            }
            total = total + u;
            let ghost prev = es.subrange(0, i as int);
            let ghost next = es.subrange(0, i + 1);
            match best {
                None => {
                    best = Some(i);
                    proof {
                        assert(next.len() == 1);
                        assert(next[0] == es[i as int]);
                    }
                },
                Some(b) => {
                    if u >= self.macro_definitions.value_at(b).usage_count {
                        best = Some(i);
                        proof {
                            let bu = es[b as int].1.usage_count;
                            assert forall|j: int| 0 <= j < next.len() implies (#[trigger] next[j]).1.usage_count <= u by {
                                if j < i {
                                    assert(next[j] == prev[j]);
                                }
                            }
                            assert(next[i as int] == es[i as int]);
                        }
                    } else {
                        proof {
                            let bu = es[b as int].1.usage_count;
                            let k = choose|k: int| 0 <= k < prev.len() && prev[k].0 == es[b as int].0 && prev[k].1.usage_count == bu
                                && (forall|j: int| 0 <= j < prev.len() ==> (#[trigger] prev[j]).1.usage_count <= bu)
                                && (forall|j: int| k < j < prev.len() ==> (#[trigger] prev[j]).1.usage_count < bu);
                            assert(next[k] == prev[k]);
                            assert forall|j: int| 0 <= j < next.len() implies (#[trigger] next[j]).1.usage_count <= bu by {
                                if j < i {
                                    assert(next[j] == prev[j]);
                                }
                            }
                            assert forall|j: int| k < j < next.len() implies (#[trigger] next[j]).1.usage_count < bu by {
                                if j < i {
                                    assert(next[j] == prev[j]);
                                }
                            }
                        }
                    }
                },
            }
            i += 1;
        }
        proof {
            assert(es.subrange(0, n as int) =~= es);
        }
        let most_used_macro = match best {
            Some(b) => Some((self.macro_definitions.key_at(b).clone(), self.macro_definitions.value_at(b).usage_count)),
            None => None,
        };
        MacroStatistics {
            total_macros: n,
            total_expansions: total,
            most_used_macro,
            current_expansion_depth: self.expansion_stack.len(),
        }
    }

    /// Defined macro names written `\name` in `definition`, sorted, no
    /// repeats.
    fn extract_macro_dependencies(&self, definition: &str) -> (r: Vec<String>)
        requires
            self.wf(),
        ensures
            is_dependency_list(string_views(r@), definition@, self.defined_names()),
    {
        let chars = chars_of(definition);
        let n = chars.len();
        let ghost s = chars@;
        let mut found: StringMap<bool> = StringMap::new();
        let ghost mut words: Seq<Seq<char>> = Seq::empty();
        let mut i: usize = 0;
        proof {
            assert(control_words(s, 0) =~= words + control_words(s, 0));
        }
        while i < n
            invariant
                n == s.len(),
                s == chars@,
                s == definition@,
                self.wf(),
                i <= n,
                found.wf(),
                control_words(s, 0) == words + control_words(s, i as int),
                forall|k: Seq<char>| #[trigger] found.contents().contains_key(k) <==> (words.contains(k)
                    && self.defined_names().contains(k)),
            decreases n - i,
        {
            if chars[i] == '\\' {
                let mut j: usize = i + 1;
                proof {
                    lemma_alpha_run_end_bounds(s, (i + 1) as int);
                }
                while j < n && char_is_alphabetic(chars[j])
                    invariant
                        n == s.len(),
                        s == chars@,
                        i + 1 <= j <= n,
                        alpha_run_end(s, (i + 1) as int) == alpha_run_end(s, j as int),
                    decreases n - j,
                {
                    j += 1;
                }
                proof {
                    assert(alpha_run_end(s, j as int) == j);
                    assert(control_words(s, i as int) == if j > i + 1 {
                        seq![s.subrange(i + 1, j as int)] + control_words(s, j as int)
                    } else {
                        control_words(s, j as int)
                    });
                }
                if j > i + 1 {
                    let mut name_chars: Vec<char> = Vec::new();
                    let mut k: usize = i + 1;
                    while k < j
                        invariant
                            s == chars@,
                            i + 1 <= k <= j <= n,
                            n == s.len(),
                            name_chars@ == s.subrange(i + 1, k as int),
                        decreases j - k,
                    {
                        name_chars.push(chars[k]);
                        proof {
                            assert(name_chars@ =~= s.subrange(i + 1, k + 1));
                        }
                        k += 1;
                    }
                    let name = string_from_chars(&name_chars);
                    let ghost w = s.subrange(i + 1, j as int);
                    let is_defined = self.macro_definitions.get(name.as_str()).is_some();
                    if is_defined {
                        found.insert(name, true);
                    }
                    proof {
                        let old_words = words;
                        words = words.push(w);
                        assert(control_words(s, 0) =~= words + control_words(s, j as int));
                        assert forall|x: Seq<char>| #[trigger] found.contents().contains_key(x) <==> (
                            words.contains(x) && self.defined_names().contains(x)) by {
                            if words.contains(x) && x != w {
                                let q = choose|q: int| 0 <= q < words.len() && words[q] == x;
                                assert(old_words[q] == x);
                            }
                            if old_words.contains(x) {
                                let q = choose|q: int| 0 <= q < old_words.len() && old_words[q] == x;
                                assert(words[q] == x);
                            }
                            assert(words[words.len() - 1] == w);
                        }
                    }
                } else {
                    proof {
                        assert(control_words(s, 0) =~= words + control_words(s, j as int));
                    }
                }
                i = j;
            } else {
                proof {
                    assert(control_words(s, i as int) == control_words(s, i + 1));
                }
                i += 1;
            }
        }
        proof {
            assert(control_words(s, n as int) =~= Seq::<Seq<char>>::empty());
            assert(control_words(s, 0) =~= words);
        }
        let mut r: Vec<String> = Vec::new();
        let m = found.len();
        let mut q: usize = 0;
        while q < m
            invariant
                m == found.entry_seq().len(),
                q <= m,
                string_views(r@) == found.entry_seq().subrange(0, q as int).map_values(|e: (Seq<char>, bool)| e.0),
            decreases m - q,
        {
            let c = found.key_at(q).clone();
            let ghost before = r@;
            r.push(c);
            proof {
                assert(r@ == before.push(c));
                assert(string_views(r@) =~= string_views(before).push(c@));
                assert(found.entry_seq().subrange(0, q + 1).map_values(|e: (Seq<char>, bool)| e.0) =~= found.entry_seq().subrange(0, q as int).map_values(|e: (Seq<char>, bool)| e.0).push(found.entry_seq()[q as int].0));
            }
            q += 1;
        }
        proof {
            let es = found.entry_seq();
            let rv = string_views(r@);
            assert(es.subrange(0, m as int) =~= es);
            assert(rv =~= es.map_values(|e: (Seq<char>, bool)| e.0));
            assert forall|a: int, b: int| 0 <= a < b < rv.len() implies key_lt(#[trigger] rv[a], #[trigger] rv[b]) by {
                assert(rv[a] == es[a].0);
                assert(rv[b] == es[b].0);
            }
            assert forall|x: Seq<char>| #[trigger] rv.contains(x) <==> (control_words(definition@, 0).contains(x)
                && self.defined_names().contains(x)) by {
                lemma_entries_map_contains(es, x);
                if rv.contains(x) {
                    let a = choose|a: int| 0 <= a < rv.len() && rv[a] == x;
                    assert(es[a].0 == x);
                }
                if found.contents().contains_key(x) {
                    let a = choose|a: int| 0 <= a < es.len() && #[trigger] es[a].0 == x;
                    assert(rv[a] == x);
                }
            }
        }
        r
    }
}

/// Whether `name` occurs in `list`.
fn list_contains(list: &Vec<String>, name: &str) -> (b: bool)
    ensures
        b == string_views(list@).contains(name@),
{
    let n = list.len();
    let mut i: usize = 0;
    while i < n
        invariant
            n == list@.len(),
            i <= n,
            forall|j: int| 0 <= j < i ==> #[trigger] string_views(list@)[j] != name@,
        decreases n - i,
    {
        if compare_keys(list[i].as_str(), name) == KeyOrder::Equal {
            proof {
                assert(string_views(list@)[i as int] == name@);
            }
            return true;
        }
        proof {
            assert(string_views(list@)[i as int] == list@[i as int]@);
        }
        i += 1;
    }
    false
}

/// The names of the definitions that refer to `name`, in order.
pub open spec fn dependents_in(s: Seq<(Seq<char>, MacroDefinitionView)>, name: Seq<char>) -> Seq<Seq<char>>
    decreases s.len(),
{
    if s.len() == 0 {
        Seq::empty()
    } else {
        let rest = dependents_in(s.drop_last(), name);
        if s.last().1.dependencies.contains(name) {
            rest.push(s.last().0)
        } else {
            rest
        }
    }
}

/// The macro dependency key of `name`: its definition hash, or zero if
/// it is not defined.
pub open spec fn macro_dependency(name: Seq<char>, defs: Map<Seq<char>, MacroDefinitionView>) -> DependencyKeyView {
    DependencyKeyView {
        dep_type: DependencyTypeView::Macro,
        identifier: name,
        value_hash: if defs.contains_key(name) {
            defs[name].definition_hash
        } else {
            0
        },
    }
}

/// Sum of the usage counts.
pub open spec fn usage_total(s: Seq<(Seq<char>, MacroDefinitionView)>) -> nat
    decreases s.len(),
{
    if s.len() == 0 {
        0
    } else {
        usage_total(s.drop_last()) + (s.last().1.usage_count as nat)
    }
}

proof fn lemma_usage_total_prefix(s: Seq<(Seq<char>, MacroDefinitionView)>, i: int)
    requires
        0 <= i <= s.len(),
    ensures
        usage_total(s.subrange(0, i)) <= usage_total(s),
    decreases s.len(),
{
    if i < s.len() {
        assert(s.drop_last().subrange(0, i) =~= s.subrange(0, i));
        lemma_usage_total_prefix(s.drop_last(), i);
    } else {
        assert(s.subrange(0, i) =~= s);
    }
}

/// `(name, count)` is the last entry with the greatest usage count.
pub open spec fn is_last_most_used(s: Seq<(Seq<char>, MacroDefinitionView)>, name: Seq<char>, count: u64) -> bool {
    exists|k: int|
        0 <= k < s.len() && s[k].0 == name && s[k].1.usage_count == count
            && (forall|j: int| 0 <= j < s.len() ==> (#[trigger] s[j]).1.usage_count <= count)
            && (forall|j: int| k < j < s.len() ==> (#[trigger] s[j]).1.usage_count < count)
}

/// A run of alphabetic characters ends between its start and the end.
pub proof fn lemma_alpha_run_end_bounds(s: Seq<char>, k: int)
    requires
        0 <= k <= s.len(),
    ensures
        k <= alpha_run_end(s, k) <= s.len(),
        alpha_run_end(s, k) < s.len() ==> !spec_is_alphabetic(s[alpha_run_end(s, k)]),
    decreases s.len() - k,
{
    if k < s.len() && spec_is_alphabetic(s[k]) {
        lemma_alpha_run_end_bounds(s, k + 1);
    }
}

} // verus!
