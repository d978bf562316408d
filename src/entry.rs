//! One named entry of a configuration document, and the merge of two
//! entries of the same name taken from sources of different precedence.
use crate::env::EnvVars;
use crate::model::{dedup, lemma_dedup_append_seen, lemma_dedup_no_dups, no_dups};
use vstd::prelude::*;

verus! {

/// Whether an entry can be run directly or only serves as a template.
#[derive(Clone, Copy, Debug, PartialEq, Eq, Structural)]
pub enum EntryType {
    Command,
    Model,
}

impl Default for EntryType {
    fn default() -> (r: EntryType)
        ensures
            r == EntryType::Command,
    {
        EntryType::Command
    }
}

/// The sandbox parameters of one command or template.
#[derive(Clone, Debug)]
pub struct Entry {
    pub entry_type: EntryType,
    pub enabled: bool,
    pub override_parent: bool,
    pub extends: Vec<String>,
    pub share: Vec<String>,
    pub bind: Vec<String>,
    pub ro_bind: Vec<String>,
    pub dev_bind: Vec<String>,
    pub bind_try: Vec<String>,
    pub ro_bind_try: Vec<String>,
    pub dev_bind_try: Vec<String>,
    pub tmpfs: Vec<String>,
    pub chdir: Option<String>,
    pub die_with_parent: bool,
    pub new_session: bool,
    pub cap: Vec<String>,
    pub env: EnvVars,
    pub unset_env: Vec<String>,
}

/// An entry as plain mathematical values.
pub struct EntryView {
    pub entry_type: EntryType,
    pub enabled: bool,
    pub override_parent: bool,
    pub extends: Seq<Seq<char>>,
    pub share: Seq<Seq<char>>,
    pub bind: Seq<Seq<char>>,
    pub ro_bind: Seq<Seq<char>>,
    pub dev_bind: Seq<Seq<char>>,
    pub bind_try: Seq<Seq<char>>,
    pub ro_bind_try: Seq<Seq<char>>,
    pub dev_bind_try: Seq<Seq<char>>,
    pub tmpfs: Seq<Seq<char>>,
    pub chdir: Option<Seq<char>>,
    pub die_with_parent: bool,
    pub new_session: bool,
    pub cap: Seq<Seq<char>>,
    pub env: Map<Seq<char>, Seq<char>>,
    pub unset_env: Seq<Seq<char>>,
}

/// The character sequences of a list of strings.
pub open spec fn strs(v: Seq<String>) -> Seq<Seq<char>> {
    v.map_values(|s: String| s@)
}

pub open spec fn opt_str(o: Option<String>) -> Option<Seq<char>> {
    match o {
        Some(s) => Some(s@),
        None => None,
    }
}

impl View for Entry {
    type V = EntryView;

    open spec fn view(&self) -> EntryView {
        EntryView {
            entry_type: self.entry_type,
            enabled: self.enabled,
            override_parent: self.override_parent,
            extends: strs(self.extends@),
            share: strs(self.share@),
            bind: strs(self.bind@),
            ro_bind: strs(self.ro_bind@),
            dev_bind: strs(self.dev_bind@),
            bind_try: strs(self.bind_try@),
            ro_bind_try: strs(self.ro_bind_try@),
            dev_bind_try: strs(self.dev_bind_try@),
            tmpfs: strs(self.tmpfs@),
            chdir: opt_str(self.chdir),
            die_with_parent: self.die_with_parent,
            new_session: self.new_session,
            cap: strs(self.cap@),
            env: self.env@,
            unset_env: strs(self.unset_env@),
        }
    }
}

/// An entry with every field at its default value.
pub open spec fn default_view() -> EntryView {
    EntryView {
        entry_type: EntryType::Command,
        enabled: true,
        override_parent: false,
        extends: Seq::empty(),
        share: Seq::empty(),
        bind: Seq::empty(),
        ro_bind: Seq::empty(),
        dev_bind: Seq::empty(),
        bind_try: Seq::empty(),
        ro_bind_try: Seq::empty(),
        dev_bind_try: Seq::empty(),
        tmpfs: Seq::empty(),
        chdir: None,
        die_with_parent: false,
        new_session: false,
        cap: Seq::empty(),
        env: Map::empty(),
        unset_env: Seq::empty(),
    }
}

/// A list field after a source-level merge: an empty child list keeps the
/// parent's; otherwise the parent's items, then the child's, each kept once.
pub open spec fn merge_list(parent: Seq<Seq<char>>, child: Seq<Seq<char>>) -> Seq<Seq<char>> {
    if child.len() == 0 {
        parent
    } else {
        dedup(parent + child)
    }
}

/// The source-level merge of a higher-precedence `child` into a `parent` of the same name.
pub open spec fn deep_merge_view(parent: EntryView, child: EntryView) -> EntryView {
    EntryView {
        entry_type: child.entry_type,
        enabled: child.enabled,
        override_parent: child.override_parent,
        extends: child.extends,
        share: merge_list(parent.share, child.share),
        bind: merge_list(parent.bind, child.bind),
        ro_bind: merge_list(parent.ro_bind, child.ro_bind),
        dev_bind: merge_list(parent.dev_bind, child.dev_bind),
        bind_try: merge_list(parent.bind_try, child.bind_try),
        ro_bind_try: merge_list(parent.ro_bind_try, child.ro_bind_try),
        dev_bind_try: merge_list(parent.dev_bind_try, child.dev_bind_try),
        tmpfs: merge_list(parent.tmpfs, child.tmpfs),
        chdir: if child.chdir.is_some() {
            child.chdir
        } else {
            parent.chdir
        },
        die_with_parent: child.die_with_parent,
        new_session: child.new_session,
        cap: merge_list(parent.cap, child.cap),
        env: parent.env.union_prefer_right(child.env),
        unset_env: merge_list(parent.unset_env, child.unset_env),
    }
}

/// No list field of the entry holds an item twice.
pub open spec fn lists_without_dups(e: EntryView) -> bool {
    &&& no_dups(e.share)
    &&& no_dups(e.bind)
    &&& no_dups(e.ro_bind)
    &&& no_dups(e.dev_bind)
    &&& no_dups(e.bind_try)
    &&& no_dups(e.ro_bind_try)
    &&& no_dups(e.dev_bind_try)
    &&& no_dups(e.tmpfs)
    &&& no_dups(e.cap)
    &&& no_dups(e.unset_env)
}

pub fn default_enabled() -> (r: bool)
    ensures
        r == default_view().enabled,
{
    true
}

pub fn default_override() -> (r: bool)
    ensures
        r == default_view().override_parent,
{
    false
}

pub fn default_die_with_parent() -> (r: bool)
    ensures
        r == default_view().die_with_parent,
{
    false
}

pub fn default_new_session() -> (r: bool)
    ensures
        r == default_view().new_session,
{
    false
}

/// A copy of a list of strings.
pub fn copy_strs(v: &Vec<String>) -> (r: Vec<String>)
    ensures
        r@ == v@,
{
    let r = v.clone();
    assert(r@ =~= v@);
    r
}

fn copy_opt(o: &Option<String>) -> (r: Option<String>)
    ensures
        r == *o,
{
    match o {
        Some(s) => Some(s.clone()),
        None => None,
    }
}

/// Whether `x` occurs in `v`.
pub fn contains_str(v: &Vec<String>, x: &str) -> (r: bool)
    ensures
        r == strs(v@).contains(x@),
{
    let wanted = x.to_owned();
    let mut i: usize = 0;
    while i < v.len()
        invariant
            i <= v@.len(),
            wanted@ == x@,
            forall|j: int| 0 <= j < i ==> v@[j]@ != x@,
        decreases v@.len() - i,
    {
        if v[i] == wanted {
            assert(strs(v@)[i as int] == x@);
            return true;
        }
        i = i + 1;
    }
    proof {
        if strs(v@).contains(x@) {
            let j = choose|j: int| 0 <= j < strs(v@).len() && strs(v@)[j] == x@;
            assert(v@[j]@ == x@);
        }
    }
    false
}

/// Removes every item after its first occurrence, keeping the order.
pub fn deduplicate_vec(vec: Vec<String>) -> (r: Vec<String>)
    ensures
        strs(r@) == dedup(strs(vec@)),
{
    let mut out: Vec<String> = Vec::new();
    let mut i: usize = 0;
    while i < vec.len()
        invariant
            i <= vec@.len(),
            strs(out@) == dedup(strs(vec@).take(i as int)),
        decreases vec@.len() - i,
    {
        let ghost s = strs(vec@).take(i + 1);
        assert(s.drop_last() =~= strs(vec@).take(i as int));
        assert(s.last() == vec@[i as int]@);
        let item = vec[i].clone();
        if !contains_str(&out, item.as_str()) {
            let ghost before = out@;
            out.push(item);
            assert(strs(out@) =~= strs(before).push(item@));
        }
        i = i + 1;
    }
    assert(strs(vec@).take(i as int) =~= strs(vec@));
    out
}

/// A list field after a source-level merge.
fn merge_vec(parent: Vec<String>, child: Vec<String>) -> (r: Vec<String>)
    ensures
        strs(r@) == merge_list(strs(parent@), strs(child@)),
{
    if child.len() == 0 {
        parent
    } else {
        let mut all = parent;
        let mut rest = child;
        let ghost p = all@;
        let ghost c = rest@;
        all.append(&mut rest);
        assert(strs(all@) =~= strs(p) + strs(c));
        deduplicate_vec(all)
    }
}

impl Entry {
    /// An entry with every field at its default value.
    pub fn new() -> (r: Entry)
        ensures
            r@ == default_view(),
            r.env.pairs() == Seq::<(Seq<char>, Seq<char>)>::empty(),
    {
        let r = Entry {
            entry_type: EntryType::Command,
            enabled: default_enabled(),
            override_parent: default_override(),
            extends: Vec::new(),
            share: Vec::new(),
            bind: Vec::new(),
            ro_bind: Vec::new(),
            dev_bind: Vec::new(),
            bind_try: Vec::new(),
            ro_bind_try: Vec::new(),
            dev_bind_try: Vec::new(),
            tmpfs: Vec::new(),
            chdir: None,
            die_with_parent: default_die_with_parent(),
            new_session: default_new_session(),
            cap: Vec::new(),
            env: EnvVars::new(),
            unset_env: Vec::new(),
        };
        assert(strs(Seq::<String>::empty()) =~= Seq::<Seq<char>>::empty());
        assert(r@ =~= default_view());
        r
    }

    /// A copy of the entry.
    pub fn duplicate(&self) -> (r: Entry)
        ensures
            r@ == self@,
            r.env.pairs() == self.env.pairs(),
    {
        Entry {
            entry_type: self.entry_type,
            enabled: self.enabled,
            override_parent: self.override_parent,
            extends: copy_strs(&self.extends),
            share: copy_strs(&self.share),
            bind: copy_strs(&self.bind),
            ro_bind: copy_strs(&self.ro_bind),
            dev_bind: copy_strs(&self.dev_bind),
            bind_try: copy_strs(&self.bind_try),
            ro_bind_try: copy_strs(&self.ro_bind_try),
            dev_bind_try: copy_strs(&self.dev_bind_try),
            tmpfs: copy_strs(&self.tmpfs),
            chdir: copy_opt(&self.chdir),
            die_with_parent: self.die_with_parent,
            new_session: self.new_session,
            cap: copy_strs(&self.cap),
            env: self.env.duplicate(),
            unset_env: copy_strs(&self.unset_env),
        }
    }

    /// Merges a higher-precedence `child` into a `parent` of the same name:
    /// the child's scalars win, its `chdir` wins when set, each list keeps
    /// the parent's items followed by the child's new ones (an empty child
    /// list keeps the parent's), and the child's variables overlay the parent's.
    pub fn deep_merge(parent: Entry, child: Entry) -> (r: Entry)
        ensures
            r@ == deep_merge_view(parent@, child@),
    {
        let mut env = parent.env;
        env.extend(&child.env);
        let r = Entry {
            entry_type: child.entry_type,
            enabled: child.enabled,
            override_parent: child.override_parent,
            extends: child.extends,
            share: merge_vec(parent.share, child.share),
            bind: merge_vec(parent.bind, child.bind),
            ro_bind: merge_vec(parent.ro_bind, child.ro_bind),
            dev_bind: merge_vec(parent.dev_bind, child.dev_bind),
            bind_try: merge_vec(parent.bind_try, child.bind_try),
            ro_bind_try: merge_vec(parent.ro_bind_try, child.ro_bind_try),
            dev_bind_try: merge_vec(parent.dev_bind_try, child.dev_bind_try),
            tmpfs: merge_vec(parent.tmpfs, child.tmpfs),
            chdir: match child.chdir {
                Some(c) => Some(c),
                None => parent.chdir,
            },
            die_with_parent: child.die_with_parent,
            new_session: child.new_session,
            cap: merge_vec(parent.cap, child.cap),
            env,
            unset_env: merge_vec(parent.unset_env, child.unset_env),
        };
        assert(r@ =~= deep_merge_view(parent@, child@));
        r
    }
}

/// A source-level merge of lists `[a, b]` and `[b, c]` of distinct items
/// gives `[a, b, c]`: the parent's items first, then the child's new ones.
pub proof fn lemma_merge_list_order(a: Seq<char>, b: Seq<char>, c: Seq<char>)
    requires
        a != b,
        b != c,
        a != c,
    ensures
        merge_list(seq![a, b], seq![b, c]) == seq![a, b, c],
{
    let s = seq![a, b] + seq![b, c];
    assert(s =~= seq![a, b, b, c]);
    assert(s.drop_last() =~= seq![a, b, b]);
    assert(s.drop_last().drop_last() =~= seq![a, b]);
    assert(seq![a, b].drop_last() =~= seq![a]);
    assert(seq![a].drop_last() =~= Seq::<Seq<char>>::empty());
    assert(dedup(Seq::<Seq<char>>::empty()) == Seq::<Seq<char>>::empty());
    assert(seq![a].last() == a);
    assert(Seq::<Seq<char>>::empty().push(a) =~= seq![a]);
    assert(dedup(seq![a]) =~= seq![a]);
    assert(seq![a, b].last() == b);
    assert(seq![a].push(b) =~= seq![a, b]);
    assert(dedup(seq![a, b]) =~= seq![a, b]) by {
        assert(!seq![a].contains(b)) by {
            assert(seq![a][0] != b);
        }
    }
    assert(seq![a, b].contains(b)) by {
        assert(seq![a, b][1] == b);
    }
    assert(seq![a, b, b].last() == b);
    assert(dedup(seq![a, b, b]) =~= seq![a, b]);
    assert(s.last() == c);
    assert(seq![a, b].push(c) =~= seq![a, b, c]);
    assert(!seq![a, b].contains(c)) by {
        assert(seq![a, b][0] != c && seq![a, b][1] != c);
    }
    assert(dedup(s) =~= seq![a, b, c]);
}

/// An empty child list leaves the parent's list as it is.
pub proof fn lemma_merge_list_empty_child(parent: Seq<Seq<char>>)
    ensures
        merge_list(parent, Seq::empty()) == parent,
{
}

/// Merging a list with itself gives it back, provided it holds no item twice.
pub proof fn lemma_merge_list_self(s: Seq<Seq<char>>)
    requires
        no_dups(s),
    ensures
        merge_list(s, s) == s,
{
    if s.len() > 0 {
        assert forall|i: int| 0 <= i < s.len() implies s.contains(#[trigger] s[i]) by {}
        lemma_dedup_append_seen(s, s);
        lemma_dedup_no_dups(s);
    }
}

/// The source-level merge of an entry with itself gives it back, provided
/// none of its lists holds an item twice.
pub proof fn lemma_deep_merge_self(e: EntryView)
    requires
        lists_without_dups(e),
    ensures
        deep_merge_view(e, e) == e,
{
    lemma_merge_list_self(e.share);
    lemma_merge_list_self(e.bind);
    lemma_merge_list_self(e.ro_bind);
    lemma_merge_list_self(e.dev_bind);
    lemma_merge_list_self(e.bind_try);
    lemma_merge_list_self(e.ro_bind_try);
    lemma_merge_list_self(e.dev_bind_try);
    lemma_merge_list_self(e.tmpfs);
    lemma_merge_list_self(e.cap);
    lemma_merge_list_self(e.unset_env);
    assert(e.env.union_prefer_right(e.env) =~= e.env);
    assert(deep_merge_view(e, e) =~= e);
}

} // verus!
