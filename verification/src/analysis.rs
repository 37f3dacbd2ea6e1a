//! Duplicate-definition analysis: walks named items in declaration order,
//! keeps the first definition of every name, and reports each later
//! definition with a note pointing back at the first one. The pass never
//! fails: it returns a clean result when no name repeats and a degraded
//! (first-wins) result otherwise.

use vstd::prelude::*;
use crate::ast::{Grammar, RItem, Rule, Span};
use crate::diagnostic::{concat3, Diagnostic, Partial, Severity};

verus! {

/// Items subject to duplicate analysis expose the name they define.
pub trait ItemIdent {
    spec fn ident_spec(&self) -> Seq<char>;

    fn ident(&self) -> (r: &String)
        ensures
            r@ == self.ident_spec(),
    ;
}

/// Items subject to duplicate analysis expose where they were defined.
pub trait ItemSpan {
    spec fn span_spec(&self) -> Span;

    fn span(&self) -> (r: Span)
        ensures
            r == self.span_spec(),
    ;
}

impl ItemIdent for Rule {
    open spec fn ident_spec(&self) -> Seq<char> {
        self.name.node@
    }

    fn ident(&self) -> (r: &String) {
        &self.name.node
    }
}

impl ItemSpan for Rule {
    open spec fn span_spec(&self) -> Span {
        self.name.span
    }

    fn span(&self) -> (r: Span) {
        self.name.span
    }
}

impl ItemIdent for RItem {
    open spec fn ident_spec(&self) -> Seq<char> {
        self.name.node@
    }

    fn ident(&self) -> (r: &String) {
        &self.name.node
    }
}

impl ItemSpan for RItem {
    open spec fn span_spec(&self) -> Span {
        self.name.span
    }

    fn span(&self) -> (r: Span) {
        self.name.span
    }
}

/// Whether some item of `s` defines `name`.
pub open spec fn contains_name<Item: ItemIdent>(s: Seq<Item>, name: Seq<char>) -> bool {
    exists|j: int| 0 <= j < s.len() && s[j].ident_spec() == name
}

/// Whether two items of `s` define the same name.
pub open spec fn has_duplicate<Item: ItemIdent>(s: Seq<Item>) -> bool {
    exists|i: int, j: int|
        0 <= i < j < s.len() && s[i].ident_spec() == s[j].ident_spec()
}

/// The items that survive duplicate analysis: each name's first definition,
/// in declaration order.
pub open spec fn first_wins<Item: ItemIdent>(s: Seq<Item>) -> Seq<Item>
    decreases s.len(),
{
    if s.len() == 0 {
        Seq::empty()
    } else {
        let kept = first_wins(s.drop_last());
        if contains_name(s.drop_last(), s.last().ident_spec()) {
            kept
        } else {
            kept.push(s.last())
        }
    }
}

/// The message reported at a later definition of a name.
pub open spec fn dup_msg(kind: Seq<char>, name: Seq<char>) -> Seq<char> {
    "duplicate definition of "@ + kind + " `"@ + name + "`"@
}

/// The message of the note attached at the first definition of the name.
pub open spec fn prev_msg(kind: Seq<char>, name: Seq<char>) -> Seq<char> {
    "previous definition of "@ + kind + " `"@ + name + "` here"@
}

/// The diagnostic reported when `cur` re-defines the name first defined by
/// `pre`: an error at the new definition carrying a note at the first one.
pub open spec fn is_dup_diag<Item: ItemIdent + ItemSpan>(
    d: Diagnostic,
    pre: Item,
    cur: Item,
    kind: Seq<char>,
) -> bool {
    &&& d.severity == Severity::Error
    &&& d.span == cur.span_spec()
    &&& d.message@ == dup_msg(kind, cur.ident_spec())
    &&& match d.previous {
        Some(p) => p.0 == pre.span_spec() && p.1@ == prev_msg(kind, pre.ident_spec()),
        None => false,
    }
}

/// The exact diagnostic trail of one analysis run over `s`: one duplicate
/// diagnostic per item whose name was already defined, in declaration order,
/// each pointing back at the surviving first definition.
pub open spec fn dup_diags_ok<Item: ItemIdent + ItemSpan>(
    s: Seq<Item>,
    kind: Seq<char>,
    ds: Seq<Diagnostic>,
) -> bool
    decreases s.len(),
{
    if s.len() == 0 {
        ds.len() == 0
    } else {
        let p = s.drop_last();
        let cur = s.last();
        if contains_name(p, cur.ident_spec()) {
            &&& ds.len() >= 1
            &&& dup_diags_ok(p, kind, ds.drop_last())
            &&& exists|j: int|
                0 <= j < first_wins(p).len()
                    && (#[trigger] first_wins(p)[j]).ident_spec() == cur.ident_spec()
                    && is_dup_diag(ds.last(), first_wins(p)[j], cur, kind)
        } else {
            dup_diags_ok(p, kind, ds)
        }
    }
}

/// Surviving items define the names of `s`, no more and no fewer.
pub proof fn lemma_first_wins_contains<Item: ItemIdent>(s: Seq<Item>, name: Seq<char>)
    ensures
        contains_name(first_wins(s), name) == contains_name(s, name),
    decreases s.len(),
{
    if s.len() == 0 {
    } else {
        let p = s.drop_last();
        lemma_first_wins_contains(p, name);
        if contains_name(p, s.last().ident_spec()) {
            assert(contains_name(s, name) == contains_name(p, name)) by {
                if contains_name(p, name) {
                    let j = choose|j: int| 0 <= j < p.len() && p[j].ident_spec() == name;
                    assert(s[j].ident_spec() == name);
                }
                if contains_name(s, name) {
                    let j = choose|j: int| 0 <= j < s.len() && s[j].ident_spec() == name;
                    if j < p.len() {
                        assert(p[j].ident_spec() == name);
                    } else {
                        let k = choose|k: int|
                            0 <= k < p.len() && p[k].ident_spec() == s.last().ident_spec();
                        assert(p[k].ident_spec() == name);
                    }
                }
            }
        } else {
            let kept = first_wins(p).push(s.last());
            assert(contains_name(s, name) ==> contains_name(kept, name)) by {
                if contains_name(s, name) {
                    let j = choose|j: int| 0 <= j < s.len() && s[j].ident_spec() == name;
                    if j < p.len() {
                        assert(p[j] == s[j]);
                        assert(contains_name(p, name));
                        let k = choose|k: int|
                            0 <= k < first_wins(p).len() && first_wins(p)[k].ident_spec() == name;
                        assert(kept[k] == first_wins(p)[k]);
                        assert(kept[k].ident_spec() == name);
                    } else {
                        assert(kept.last() == s.last());
                        assert(kept.last().ident_spec() == name);
                    }
                }
            }
            assert(contains_name(kept, name) ==> contains_name(s, name)) by {
                if contains_name(kept, name) {
                    let j = choose|j: int| 0 <= j < kept.len() && kept[j].ident_spec() == name;
                    if j < first_wins(p).len() {
                        assert(contains_name(first_wins(p), name));
                        let k = choose|k: int| 0 <= k < p.len() && p[k].ident_spec() == name;
                        assert(s[k].ident_spec() == name);
                    } else {
                        assert(s.last().ident_spec() == name);
                    }
                }
            }
        }
    }
}

/// Every surviving item is the first definition of its name: it occurs in the
/// input, and no earlier input item defines the same name.
pub proof fn lemma_first_wins_keeps_first<Item: ItemIdent>(s: Seq<Item>)
    ensures
        forall|k: int| 0 <= k < first_wins(s).len()
            ==> exists|i: int|
                0 <= i < s.len() && s[i] == #[trigger] first_wins(s)[k]
                    && (forall|i2: int| 0 <= i2 < i ==> s[i2].ident_spec() != first_wins(s)[k].ident_spec()),
    decreases s.len(),
{
    if s.len() == 0 {
    } else {
        let p = s.drop_last();
        lemma_first_wins_keeps_first(p);
        let fw = first_wins(s);
        assert forall|k: int| 0 <= k < fw.len() implies exists|i: int|
            0 <= i < s.len() && s[i] == #[trigger] fw[k]
                && (forall|i2: int| 0 <= i2 < i ==> s[i2].ident_spec() != fw[k].ident_spec()) by {
            if k < first_wins(p).len() {
                assert(fw[k] == first_wins(p)[k]);
                let i = choose|i: int|
                    0 <= i < p.len() && p[i] == first_wins(p)[k]
                        && (forall|i2: int| 0 <= i2 < i
                            ==> p[i2].ident_spec() != first_wins(p)[k].ident_spec());
                assert(s[i] == p[i]);
                assert forall|i2: int| 0 <= i2 < i implies s[i2].ident_spec() != fw[k].ident_spec() by {
                    assert(s[i2] == p[i2]);
                    assert(p[i2].ident_spec() != first_wins(p)[k].ident_spec());
                }
            } else {
                let i = s.len() - 1;
                assert(fw[k] == s.last());
                assert(!contains_name(p, s.last().ident_spec()));
                assert forall|i2: int| 0 <= i2 < i implies s[i2].ident_spec() != fw[k].ident_spec() by {
                    assert(s[i2] == p[i2]);
                    if s[i2].ident_spec() == fw[k].ident_spec() {
                        assert(contains_name(p, s.last().ident_spec()));
                    }
                }
            }
        }
    }
}

/// The analysis state: the definitions kept so far, whether any name
/// repeated, and what kind of item is being checked (for the messages).
pub struct DuplicateItem<Item> {
    items: Vec<Item>,
    has_duplicate: bool,
    what_is_duplicated: String,
}

impl<Item: ItemIdent + ItemSpan> DuplicateItem<Item> {
    /// Walks `items` in order, keeping the first definition of every name and
    /// reporting each later one; the result is clean exactly when no name was
    /// defined twice.
    pub fn analyse(items: Vec<Item>, item_kind: &str, diags: &mut Vec<Diagnostic>) -> (r: Partial<
        Vec<Item>,
    >)
        ensures
            r.spec_get()@ == first_wins(items@),
            r is Value <==> !has_duplicate(items@),
            old(diags)@.len() <= final(diags)@.len(),
            final(diags)@.subrange(0, old(diags)@.len() as int) == old(diags)@,
            dup_diags_ok(items@, item_kind@, final(diags)@.skip(old(diags)@.len() as int)),
    {
        let state = DuplicateItem {
            items: Vec::new(),
            has_duplicate: false,
            what_is_duplicated: item_kind.to_owned(),
        };
        let state = state.populate(items, diags);
        state.make()
    }

    #[verifier::loop_isolation(false)]
    fn populate(self, items: Vec<Item>, diags: &mut Vec<Diagnostic>) -> (r: DuplicateItem<Item>)
        requires
            self.items@ == Seq::<Item>::empty(),
            !self.has_duplicate,
        ensures
            r.items@ == first_wins(items@),
            r.has_duplicate == has_duplicate(items@),
            r.what_is_duplicated == self.what_is_duplicated,
            old(diags)@.len() <= final(diags)@.len(),
            final(diags)@.subrange(0, old(diags)@.len() as int) == old(diags)@,
            dup_diags_ok(items@, self.what_is_duplicated@, final(diags)@.skip(old(diags)@.len() as int)),
    {
        let ghost all = items@;
        let ghost base = diags@;
        let mut state = self;
        let mut rest = items;
        while rest.len() > 0
            invariant
                state.items@ == first_wins(all.subrange(0, all.len() - rest@.len())),
                state.has_duplicate == has_duplicate(all.subrange(0, all.len() - rest@.len())),
                state.what_is_duplicated == self.what_is_duplicated,
                rest@.len() <= all.len(),
                rest@ == all.subrange(all.len() - rest@.len(), all.len() as int),
                base.len() <= diags@.len(),
                diags@.subrange(0, base.len() as int) == base,
                dup_diags_ok(
                    all.subrange(0, all.len() - rest@.len()),
                    self.what_is_duplicated@,
                    diags@.skip(base.len() as int),
                ),
            decreases rest@.len(),
        {
            let ghost prefix = all.subrange(0, all.len() - rest@.len());
            let item = rest.remove(0);
            assert(item == all[prefix.len() as int]);
            let ghost prefix2 = all.subrange(0, all.len() - rest@.len());
            assert(prefix2 =~= prefix.push(item));
            assert(prefix2.drop_last() =~= prefix);

            let found = state.find(item.ident());
            proof {
                lemma_first_wins_contains(prefix, item.ident_spec());
                lemma_duplicate_push(prefix, item);
            }
            match found {
                Some(idx) => {
                    let ghost pre_diags = diags@;
                    state.duplicate_items(idx, &item, diags);
                    state.has_duplicate = true;
                    assert(diags@.subrange(0, base.len() as int) =~= base);
                    assert(diags@.skip(base.len() as int).drop_last()
                        =~= pre_diags.skip(base.len() as int));
                },
                None => {
                    state.items.push(item);
                },
            }
            assert(rest@ =~= all.subrange(all.len() - rest@.len(), all.len() as int));
        }
        assert(all.subrange(0, all.len() as int) =~= all);
        state
    }

    /// Looks the name up among the kept definitions.
    #[verifier::loop_isolation(false)]
    fn find(&self, name: &String) -> (r: Option<usize>)
        ensures
            match r {
                Some(idx) => idx < self.items@.len() && self.items@[idx as int].ident_spec()
                    == name@,
                None => !contains_name(self.items@, name@),
            },
    {
        let mut i: usize = 0;
        while i < self.items.len()
            invariant
                i <= self.items@.len(),
                forall|j: int| 0 <= j < i ==> (#[trigger] self.items@[j].ident_spec()) != name@,
            decreases self.items@.len() - i,
        {
            let it_name: &String = self.items[i].ident();
            if *it_name == *name {
                return Some(i);
            }
            i += 1;
        }
        None
    }

    /// Reports `current` as a duplicate of the kept definition at `pre_idx`.
    fn duplicate_items(&self, pre_idx: usize, current: &Item, diags: &mut Vec<Diagnostic>)
        requires
            pre_idx < self.items@.len(),
        ensures
            final(diags)@ == old(diags)@.push(final(diags)@.last()),
            is_dup_diag(
                final(diags)@.last(),
                self.items@[pre_idx as int],
                *current,
                self.what_is_duplicated@,
            ),
    {
        let pre = &self.items[pre_idx];
        let kind = self.what_is_duplicated.as_str();
        let head = concat3("duplicate definition of ", kind, " `");
        let message = concat3(head.as_str(), current.ident().as_str(), "`");
        let prev_head = concat3("previous definition of ", kind, " `");
        let prev_message = concat3(prev_head.as_str(), pre.ident().as_str(), "` here");
        proof {
            assert(message@ =~= dup_msg(kind@, current.ident_spec()));
            assert(prev_message@ =~= prev_msg(kind@, pre.ident_spec()));
        }
        let d = Diagnostic {
            severity: Severity::Error,
            span: current.span(),
            message,
            previous: Some((pre.span(), prev_message)),
        };
        diags.push(d);
    }

    fn make(self) -> (r: Partial<Vec<Item>>)
        ensures
            r.spec_get() == self.items,
            r is Value <==> !self.has_duplicate,
    {
        if self.has_duplicate {
            Partial::Fake(self.items)
        } else {
            Partial::Value(self.items)
        }
    }
}

/// Appending one item introduces a duplicate exactly when its name was
/// already defined.
proof fn lemma_duplicate_push<Item: ItemIdent>(p: Seq<Item>, item: Item)
    ensures
        has_duplicate(p.push(item)) == (has_duplicate(p) || contains_name(p, item.ident_spec())),
{
    let s = p.push(item);
    if has_duplicate(p) {
        let (i, j) = choose|i: int, j: int|
            0 <= i < j < p.len() && p[i].ident_spec() == p[j].ident_spec();
        assert(s[i].ident_spec() == s[j].ident_spec());
    }
    if contains_name(p, item.ident_spec()) {
        let i = choose|i: int| 0 <= i < p.len() && p[i].ident_spec() == item.ident_spec();
        assert(s[i].ident_spec() == s[p.len() as int].ident_spec());
    }
    if has_duplicate(s) {
        let (i, j) = choose|i: int, j: int|
            0 <= i < j < s.len() && s[i].ident_spec() == s[j].ident_spec();
        if j < p.len() {
            assert(p[i].ident_spec() == p[j].ident_spec());
        } else {
            assert(p[i].ident_spec() == item.ident_spec());
        }
    }
}

/// Replaces the grammar's rules by the duplicate-checked ones: the first rule
/// of every name survives, in declaration order, and each later one is
/// reported. Clean exactly when no rule name repeats.
pub fn rule_duplicate(grammar: Grammar, rules: Vec<Rule>, diags: &mut Vec<Diagnostic>) -> (r:
    Partial<Grammar>)
    ensures
        r.spec_get().rules@ == first_wins(rules@),
        r.spec_get().name == grammar.name,
        r.spec_get().rust_functions == grammar.rust_functions,
        r.spec_get().rust_items == grammar.rust_items,
        r.spec_get().attributes == grammar.attributes,
        r is Value <==> !has_duplicate(rules@),
        old(diags)@.len() <= final(diags)@.len(),
        final(diags)@.subrange(0, old(diags)@.len() as int) == old(diags)@,
        dup_diags_ok(rules@, "rule"@, final(diags)@.skip(old(diags)@.len() as int)),
{
    let mut grammar = grammar;
    match DuplicateItem::analyse(rules, "rule", diags) {
        Partial::Value(rules) => {
            grammar.rules = rules;
            Partial::Value(grammar)
        },
        Partial::Fake(rules) => {
            grammar.rules = rules;
            Partial::Fake(grammar)
        },
    }
}

/// Splits the host items into function declarations and the opaque rest,
/// duplicate-checks the functions, and stores both sets on the grammar:
/// the extracted functions are what semantic actions may call. Clean exactly
/// when no function name repeats.
#[verifier::loop_isolation(false)]
pub fn rust_functions_duplicate(grammar: Grammar, items: Vec<RItem>, diags: &mut Vec<Diagnostic>)
    -> (r: Partial<Grammar>)
    ensures
        r.spec_get().rust_functions@ == first_wins(items@.filter(|it: RItem| it.is_fn)),
        r.spec_get().rust_items@ == items@.filter(|it: RItem| !it.is_fn),
        r.spec_get().name == grammar.name,
        r.spec_get().rules == grammar.rules,
        r.spec_get().attributes == grammar.attributes,
        r is Value <==> !has_duplicate(items@.filter(|it: RItem| it.is_fn)),
        old(diags)@.len() <= final(diags)@.len(),
        final(diags)@.subrange(0, old(diags)@.len() as int) == old(diags)@,
        dup_diags_ok(
            items@.filter(|it: RItem| it.is_fn),
            "rust function"@,
            final(diags)@.skip(old(diags)@.len() as int),
        ),
{
    let ghost all = items@;
    let mut grammar = grammar;
    let mut functions: Vec<RItem> = Vec::new();
    let mut others: Vec<RItem> = Vec::new();
    let mut rest = items;
    while rest.len() > 0
        invariant
            rest@.len() <= all.len(),
            rest@ == all.subrange(all.len() - rest@.len(), all.len() as int),
            functions@ == all.subrange(0, all.len() - rest@.len()).filter(|it: RItem| it.is_fn),
            others@ == all.subrange(0, all.len() - rest@.len()).filter(|it: RItem| !it.is_fn),
        decreases rest@.len(),
    {
        let ghost prefix = all.subrange(0, all.len() - rest@.len());
        let item = rest.remove(0);
        let ghost prefix2 = all.subrange(0, all.len() - rest@.len());
        assert(prefix2 =~= prefix.push(item));
        assert(prefix2.drop_last() =~= prefix);
        reveal_with_fuel(Seq::filter, 2);
        if item.is_fn {
            functions.push(item);
        } else {
            others.push(item);
        }
        assert(rest@ =~= all.subrange(all.len() - rest@.len(), all.len() as int));
    }
    assert(all.subrange(0, all.len() as int) =~= all);
    let checked = DuplicateItem::analyse(functions, "rust function", diags);
    grammar.rust_items = others;
    match checked {
        Partial::Value(functions) => {
            grammar.rust_functions = functions;
            Partial::Value(grammar)
        },
        Partial::Fake(functions) => {
            grammar.rust_functions = functions;
            Partial::Fake(grammar)
        },
    }
}

} // verus!
