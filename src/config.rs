//! A configuration: entries by name. Aggregation of two configurations of
//! different precedence, and flattening of a command's templates.
use crate::entry::{copy_strs, deep_merge_view, lemma_deep_merge_self, lists_without_dups, strs, Entry, EntryType, EntryView};
use crate::model::{keys_distinct, lemma_pairs_map_dom, lemma_pairs_map_index, lemma_pairs_map_push, lemma_pairs_map_update, pairs_map};
use vstd::prelude::*;

verus! {

/// Entries by name; each name occurs once.
#[derive(Debug)]
pub struct Config {
    items: Vec<(String, Entry)>,
}

pub open spec fn config_pairs(s: Seq<(String, Entry)>) -> Seq<(Seq<char>, EntryView)> {
    s.map_values(|p: (String, Entry)| (p.0@, p.1@))
}

/// The entries of `m` whose kind is `t`.
pub open spec fn of_type(m: Map<Seq<char>, EntryView>, t: EntryType) -> Map<Seq<char>, EntryView> {
    Map::new(|k: Seq<char>| m.contains_key(k) && m[k].entry_type == t, |k: Seq<char>| m[k])
}

/// Two entries of one name from a `base` and an `over` source of higher
/// precedence: a disabled `over` leaves `base` as it is; an `over` marked
/// to override replaces `base`; otherwise the two are deep-merged.
pub open spec fn combine(base: EntryView, over: EntryView) -> EntryView {
    if !over.enabled {
        base
    } else if over.override_parent {
        over
    } else {
        deep_merge_view(base, over)
    }
}

/// The aggregation of a `base` configuration with an `over` configuration
/// of higher precedence; a name found in one of them only is carried over.
pub open spec fn aggregate(
    base: Map<Seq<char>, EntryView>,
    over: Map<Seq<char>, EntryView>,
) -> Map<Seq<char>, EntryView> {
    Map::new(
        |k: Seq<char>| base.contains_key(k) || over.contains_key(k),
        |k: Seq<char>|
            if !over.contains_key(k) {
                base[k]
            } else if !base.contains_key(k) {
                over[k]
            } else {
                combine(base[k], over[k])
            },
    )
}

/// `a` with the lists of `b` appended to its own and the variables of `b` laid over its own.
pub open spec fn append_view(a: EntryView, b: EntryView) -> EntryView {
    EntryView {
        share: a.share + b.share,
        bind: a.bind + b.bind,
        ro_bind: a.ro_bind + b.ro_bind,
        dev_bind: a.dev_bind + b.dev_bind,
        bind_try: a.bind_try + b.bind_try,
        ro_bind_try: a.ro_bind_try + b.ro_bind_try,
        dev_bind_try: a.dev_bind_try + b.dev_bind_try,
        tmpfs: a.tmpfs + b.tmpfs,
        cap: a.cap + b.cap,
        env: a.env.union_prefer_right(b.env),
        unset_env: a.unset_env + b.unset_env,
        ..a
    }
}

/// The scalars of `cmd` with no templates left, and the lists and variables of `lists`.
pub open spec fn with_lists(cmd: EntryView, lists: EntryView) -> EntryView {
    EntryView {
        entry_type: cmd.entry_type,
        enabled: cmd.enabled,
        override_parent: cmd.override_parent,
        extends: Seq::empty(),
        chdir: cmd.chdir,
        die_with_parent: cmd.die_with_parent,
        new_session: cmd.new_session,
        ..lists
    }
}

/// An entry with empty lists and no variables.
pub open spec fn empty_lists() -> EntryView {
    crate::entry::default_view()
}

/// The lists and variables gathered from the templates `names`, in order;
/// a name that is not a template of `m` is passed over.
pub open spec fn templates_of(m: Map<Seq<char>, EntryView>, names: Seq<Seq<char>>) -> EntryView
    decreases names.len(),
{
    if names.len() == 0 {
        empty_lists()
    } else {
        let acc = templates_of(m, names.drop_last());
        let n = names.last();
        if m.contains_key(n) && m[n].entry_type == EntryType::Model {
            append_view(acc, m[n])
        } else {
            acc
        }
    }
}

/// A command with its templates flattened in: the templates' lists in the
/// order of `extends`, then the command's own; the templates' variables
/// overlaid in order, then the command's own.
pub open spec fn resolve_view(m: Map<Seq<char>, EntryView>, cmd: EntryView) -> EntryView {
    with_lists(cmd, append_view(templates_of(m, cmd.extends), cmd))
}

/// Aggregating a configuration with itself gives it back, when every entry
/// is enabled, not marked to override, and holds no list item twice.
pub proof fn lemma_aggregate_self(c: Map<Seq<char>, EntryView>)
    requires
        forall|k: Seq<char>| #[trigger] c.contains_key(k) ==> c[k].enabled && !c[k].override_parent,
        forall|k: Seq<char>| #[trigger] c.contains_key(k) ==> lists_without_dups(c[k]),
    ensures
        aggregate(c, c) == c,
{
    assert forall|k: Seq<char>| #[trigger] c.contains_key(k) implies aggregate(c, c)[k] == c[k] by {
        lemma_deep_merge_self(c[k]);
    }
    assert(aggregate(c, c) =~= c);
}

/// A disabled entry in the higher-precedence source leaves the entry of
/// the lower-precedence source as it is, whatever its override flag.
pub proof fn lemma_disabled_keeps_base(
    base: Map<Seq<char>, EntryView>,
    over: Map<Seq<char>, EntryView>,
    k: Seq<char>,
)
    requires
        base.contains_key(k),
        over.contains_key(k),
        !over[k].enabled,
    ensures
        aggregate(base, over)[k] == base[k],
{
}

/// An enabled entry marked to override replaces the lower-precedence entry
/// wholesale: none of its lists or variables are inherited.
pub proof fn lemma_override_replaces(
    base: Map<Seq<char>, EntryView>,
    over: Map<Seq<char>, EntryView>,
    k: Seq<char>,
)
    requires
        base.contains_key(k),
        over.contains_key(k),
        over[k].enabled,
        over[k].override_parent,
    ensures
        aggregate(base, over)[k] == over[k],
{
}

/// Names that are not templates contribute nothing.
pub proof fn lemma_no_templates(m: Map<Seq<char>, EntryView>, names: Seq<Seq<char>>)
    requires
        forall|i: int|
            0 <= i < names.len() ==> !(m.contains_key(#[trigger] names[i]) && m[names[i]].entry_type
                == EntryType::Model),
    ensures
        templates_of(m, names) == empty_lists(),
    decreases names.len(),
{
    if names.len() > 0 {
        let t = names.drop_last();
        assert forall|i: int|
            0 <= i < t.len() implies !(m.contains_key(#[trigger] t[i]) && m[t[i]].entry_type
            == EntryType::Model) by {
            assert(t[i] == names[i]);
        }
        lemma_no_templates(m, t);
    }
}

/// A command that extends only names that are not templates resolves to
/// its own lists and variables, unchanged.
pub proof fn lemma_unknown_templates_ignored(m: Map<Seq<char>, EntryView>, cmd: EntryView)
    requires
        forall|i: int|
            0 <= i < cmd.extends.len() ==> !(m.contains_key(#[trigger] cmd.extends[i])
                && m[cmd.extends[i]].entry_type == EntryType::Model),
    ensures
        resolve_view(m, cmd) == (EntryView { extends: Seq::empty(), ..cmd }),
{
    lemma_no_templates(m, cmd.extends);
    assert(Seq::<Seq<char>>::empty() + cmd.share =~= cmd.share);
    assert(Seq::<Seq<char>>::empty() + cmd.bind =~= cmd.bind);
    assert(Seq::<Seq<char>>::empty() + cmd.ro_bind =~= cmd.ro_bind);
    assert(Seq::<Seq<char>>::empty() + cmd.dev_bind =~= cmd.dev_bind);
    assert(Seq::<Seq<char>>::empty() + cmd.bind_try =~= cmd.bind_try);
    assert(Seq::<Seq<char>>::empty() + cmd.ro_bind_try =~= cmd.ro_bind_try);
    assert(Seq::<Seq<char>>::empty() + cmd.dev_bind_try =~= cmd.dev_bind_try);
    assert(Seq::<Seq<char>>::empty() + cmd.tmpfs =~= cmd.tmpfs);
    assert(Seq::<Seq<char>>::empty() + cmd.cap =~= cmd.cap);
    assert(Seq::<Seq<char>>::empty() + cmd.unset_env =~= cmd.unset_env);
    assert(Map::<Seq<char>, Seq<char>>::empty().union_prefer_right(cmd.env) =~= cmd.env);
    assert(resolve_view(m, cmd) =~= (EntryView { extends: Seq::empty(), ..cmd }));
}

/// For a variable that the command does not set, the last template it
/// extends that sets the variable gives the value.
pub proof fn lemma_later_template_wins(m: Map<Seq<char>, EntryView>, cmd: EntryView, k: Seq<char>)
    requires
        cmd.extends.len() > 0,
        m.contains_key(cmd.extends.last()),
        m[cmd.extends.last()].entry_type == EntryType::Model,
        m[cmd.extends.last()].env.contains_key(k),
        !cmd.env.contains_key(k),
    ensures
        resolve_view(m, cmd).env[k] == m[cmd.extends.last()].env[k],
{
}

/// A variable that the command sets itself keeps the command's value,
/// whatever its templates set.
pub proof fn lemma_command_env_wins(m: Map<Seq<char>, EntryView>, cmd: EntryView, k: Seq<char>)
    requires
        cmd.env.contains_key(k),
    ensures
        resolve_view(m, cmd).env[k] == cmd.env[k],
{
}

impl View for Config {
    type V = Map<Seq<char>, EntryView>;

    closed spec fn view(&self) -> Map<Seq<char>, EntryView> {
        pairs_map(config_pairs(self.items@))
    }
}

fn append_strs(dst: &mut Vec<String>, src: &Vec<String>)
    ensures
        strs(final(dst)@) == strs(old(dst)@) + strs(src@),
{
    let mut more = copy_strs(src);
    let ghost a = dst@;
    dst.append(&mut more);
    assert(strs(dst@) =~= strs(a) + strs(src@));
}

/// Appends the lists of `src` to those of `dst` and lays its variables over those of `dst`.
fn append_entry(dst: &mut Entry, src: &Entry)
    ensures
        final(dst)@ == append_view(old(dst)@, src@),
{
    append_strs(&mut dst.share, &src.share);
    append_strs(&mut dst.bind, &src.bind);
    append_strs(&mut dst.ro_bind, &src.ro_bind);
    append_strs(&mut dst.dev_bind, &src.dev_bind);
    append_strs(&mut dst.bind_try, &src.bind_try);
    append_strs(&mut dst.ro_bind_try, &src.ro_bind_try);
    append_strs(&mut dst.dev_bind_try, &src.dev_bind_try);
    append_strs(&mut dst.tmpfs, &src.tmpfs);
    append_strs(&mut dst.cap, &src.cap);
    dst.env.extend(&src.env);
    append_strs(&mut dst.unset_env, &src.unset_env);
    assert(dst@ =~= append_view(old(dst)@, src@));
}

impl Config {
    #[verifier::type_invariant]
    spec fn inv(self) -> bool {
        keys_distinct(config_pairs(self.items@))
    }

    pub fn new() -> (r: Config)
        ensures
            r@ == Map::<Seq<char>, EntryView>::empty(),
    {
        let r = Config { items: Vec::new() };
        assert(config_pairs(r.items@) =~= Seq::empty());
        r
    }

    fn find(&self, name: &str) -> (r: Option<usize>)
        ensures
            r.is_none() ==> !self@.contains_key(name@),
            r.is_some() ==> r.unwrap() < self.items@.len() && self.items@[r.unwrap() as int].0@
                == name@,
    {
        let wanted = name.to_owned();
        let mut i: usize = 0;
        while i < self.items.len()
            invariant
                i <= self.items@.len(),
                wanted@ == name@,
                forall|j: int| 0 <= j < i ==> self.items@[j].0@ != name@,
            decreases self.items@.len() - i,
        {
            if self.items[i].0 == wanted {
                return Some(i);
            }
            i = i + 1;
        }
        proof {
            lemma_pairs_map_dom(config_pairs(self.items@), name@);
        }
        None
    }

    /// The number of entries.
    pub fn len(&self) -> (r: usize)
        ensures
            r == self@.len(),
    {
        proof {
            use_type_invariant(self);
            self.lemma_len();
        }
        self.items.len()
    }

    proof fn lemma_len(&self)
        requires
            keys_distinct(config_pairs(self.items@)),
        ensures
            self@.len() == self.items@.len(),
    {
        let s = config_pairs(self.items@);
        let keys = Seq::new(s.len(), |i: int| s[i].0);
        assert forall|k: Seq<char>| #[trigger] self@.dom().contains(k) <==> keys.to_set().contains(k) by {
            lemma_pairs_map_dom(s, k);
            if keys.to_set().contains(k) {
                let i = choose|i: int| 0 <= i < keys.len() && keys[i] == k;
                assert(s[i].0 == k);
            }
            if self@.dom().contains(k) {
                let i = choose|i: int| 0 <= i < s.len() && s[i].0 == k;
                assert(keys[i] == k);
            }
        }
        assert(self@.dom() =~= keys.to_set());
        assert(keys.no_duplicates());
        keys.unique_seq_to_set();
    }

    pub fn is_empty(&self) -> (r: bool)
        ensures
            r == (self@.len() == 0),
    {
        self.len() == 0
    }

    pub fn contains_key(&self, name: &str) -> (r: bool)
        ensures
            r == self@.contains_key(name@),
    {
        proof {
            use_type_invariant(self);
        }
        match self.find(name) {
            Some(i) => {
                proof {
                    lemma_pairs_map_index(config_pairs(self.items@), i as int);
                }
                true
            },
            None => false,
        }
    }

    /// The entry of that name, if any.
    pub fn get(&self, name: &str) -> (r: Option<&Entry>)
        ensures
            r.is_some() == self@.contains_key(name@),
            r.is_some() ==> r.unwrap()@ == self@[name@],
    {
        proof {
            use_type_invariant(self);
        }
        match self.find(name) {
            Some(i) => {
                proof {
                    lemma_pairs_map_index(config_pairs(self.items@), i as int);
                }
                Some(&self.items[i].1)
            },
            None => None,
        }
    }

    /// Sets the entry of `name`, replacing any entry of that name.
    pub fn insert(&mut self, name: String, entry: Entry)
        ensures
            final(self)@ == old(self)@.insert(name@, entry@),
    {
        proof {
            use_type_invariant(&*self);
        }
        let ghost s = config_pairs(self.items@);
        let found = self.find(name.as_str());
        let mut taken = Config::new();
        core::mem::swap(self, &mut taken);
        let Config { mut items } = taken;
        let ghost ev = entry@;
        match found {
            Some(i) => {
                proof {
                    lemma_pairs_map_update(s, i as int, ev);
                }
                items.set(i, (name, entry));
                assert(config_pairs(items@) =~= s.update(i as int, (s[i as int].0, ev)));
            },
            None => {
                proof {
                    lemma_pairs_map_push(s, name@, ev);
                }
                items.push((name, entry));
                assert(config_pairs(items@) =~= s.push((name@, ev)));
            },
        }
        *self = Config { items };
    }

    /// The names of the entries, each once.
    pub fn names(&self) -> (r: Vec<String>)
        ensures
            forall|k: Seq<char>| self@.contains_key(k) <==> strs(r@).contains(k),
            r@.len() == self@.len(),
    {
        proof {
            use_type_invariant(self);
            self.lemma_len();
        }
        let ghost s = config_pairs(self.items@);
        let mut r: Vec<String> = Vec::new();
        let mut i: usize = 0;
        while i < self.items.len()
            invariant
                i <= self.items@.len(),
                s == config_pairs(self.items@),
                r@.len() == i,
                forall|j: int| 0 <= j < i ==> #[trigger] r@[j]@ == s[j].0,
            decreases self.items@.len() - i,
        {
            r.push(self.items[i].0.clone());
            i = i + 1;
        }
        assert forall|k: Seq<char>| self@.contains_key(k) <==> strs(r@).contains(k) by {
            lemma_pairs_map_dom(s, k);
            if self@.contains_key(k) {
                let j = choose|j: int| 0 <= j < s.len() && s[j].0 == k;
                assert(strs(r@)[j] == k);
            }
            if strs(r@).contains(k) {
                let j = choose|j: int| 0 <= j < strs(r@).len() && strs(r@)[j] == k;
                assert(r@[j]@ == k);
            }
        }
        r
    }

    /// A copy of the entries, or of those of kind `t`.
    fn filtered(&self, t: Option<EntryType>) -> (r: Config)
        ensures
            t.is_none() ==> r@ == self@,
            t.is_some() ==> r@ == of_type(self@, t.unwrap()),
    {
        proof {
            use_type_invariant(self);
        }
        let ghost s = config_pairs(self.items@);
        let mut r = Config::new();
        let mut i: usize = 0;
        while i < self.items.len()
            invariant
                i <= self.items@.len(),
                s == config_pairs(self.items@),
                keys_distinct(s),
                forall|k: Seq<char>| #[trigger]
                    r@.contains_key(k) <==> (pairs_map(s.take(i as int)).contains_key(k) && (
                    t.is_none() || pairs_map(s.take(i as int))[k].entry_type == t.unwrap())),
                forall|k: Seq<char>| #[trigger]
                    r@.contains_key(k) ==> r@[k] == pairs_map(s.take(i as int))[k],
            decreases self.items@.len() - i,
        {
            let ghost m0 = pairs_map(s.take(i as int));
            assert(s.take(i + 1).drop_last() =~= s.take(i as int));
            proof {
                lemma_pairs_map_dom(s.take(i as int), s[i as int].0);
                if m0.contains_key(s[i as int].0) {
                    let j = choose|j: int| 0 <= j < i && s.take(i as int)[j].0 == s[i as int].0;
                    assert(s[j].0 == s[i as int].0);
                }
            }
            let keep = match t {
                Some(ty) => self.items[i].1.entry_type == ty,
                None => true,
            };
            if keep {
                let name = self.items[i].0.clone();
                let e = self.items[i].1.duplicate();
                r.insert(name, e);
            }
            i = i + 1;
        }
        assert(s.take(i as int) =~= s);
        proof {
            if t.is_none() {
                assert(r@ =~= self@);
            } else {
                assert(r@ =~= of_type(self@, t.unwrap()));
            }
        }
        r
    }

    /// A copy of all entries.
    pub fn get_entries(&self) -> (r: Config)
        ensures
            r@ == self@,
    {
        self.filtered(None)
    }

    /// The entries on which `predicate` returned true.
    pub fn get_entries_with<F: Fn(&Entry) -> bool>(&self, predicate: F) -> (r: Config)
        requires
            forall|e: &Entry| #[trigger] predicate.requires((e,)),
        ensures
            forall|k: Seq<char>|
                #[trigger] r@.contains_key(k) ==> self@.contains_key(k) && r@[k] == self@[k]
                    && exists|e: &Entry| e@ == self@[k] && predicate.ensures((e,), true),
            forall|k: Seq<char>|
                self@.contains_key(k) && !#[trigger] r@.contains_key(k) ==> exists|e: &Entry|
                    e@ == self@[k] && predicate.ensures((e,), false),
    {
        proof {
            use_type_invariant(self);
        }
        let ghost s = config_pairs(self.items@);
        let mut r = Config::new();
        let mut i: usize = 0;
        while i < self.items.len()
            invariant
                i <= self.items@.len(),
                s == config_pairs(self.items@),
                keys_distinct(s),
                forall|e: &Entry| #[trigger] predicate.requires((e,)),
                forall|k: Seq<char>|
                    #[trigger] r@.contains_key(k) ==> pairs_map(s.take(i as int)).contains_key(k)
                        && r@[k] == pairs_map(s.take(i as int))[k] && exists|e: &Entry|
                        e@ == pairs_map(s.take(i as int))[k] && predicate.ensures((e,), true),
                forall|k: Seq<char>|
                    pairs_map(s.take(i as int)).contains_key(k) && !#[trigger] r@.contains_key(k)
                        ==> exists|e: &Entry|
                        e@ == pairs_map(s.take(i as int))[k] && predicate.ensures((e,), false),
            decreases self.items@.len() - i,
        {
            assert(s.take(i + 1).drop_last() =~= s.take(i as int));
            let ghost m0 = pairs_map(s.take(i as int));
            proof {
                lemma_pairs_map_dom(s.take(i as int), s[i as int].0);
                if m0.contains_key(s[i as int].0) {
                    let j = choose|j: int| 0 <= j < i && s.take(i as int)[j].0 == s[i as int].0;
                    assert(s[j].0 == s[i as int].0);
                }
            }
            let e = &self.items[i].1;
            let keep = predicate(e);
            if keep {
                let name = self.items[i].0.clone();
                let copy = e.duplicate();
                r.insert(name, copy);
            }
            i = i + 1;
        }
        assert(s.take(i as int) =~= s);
        r
    }

    /// A copy of the entry of that name, if any.
    pub fn get_entry(&self, name: &str) -> (r: Option<Entry>)
        ensures
            r.is_some() == self@.contains_key(name@),
            r.is_some() ==> r.unwrap()@ == self@[name@],
    {
        match self.get(name) {
            Some(e) => Some(e.duplicate()),
            None => None,
        }
    }

    /// A copy of the entry of that name, if there is one and `predicate` returned true on it.
    pub fn get_entry_with<F: Fn(&Entry) -> bool>(&self, name: &str, predicate: F) -> (r: Option<
        Entry,
    >)
        requires
            forall|e: &Entry| #[trigger] predicate.requires((e,)),
        ensures
            r.is_some() ==> self@.contains_key(name@) && r.unwrap()@ == self@[name@]
                && exists|e: &Entry| e@ == self@[name@] && predicate.ensures((e,), true),
            r.is_none() && self@.contains_key(name@) ==> exists|e: &Entry|
                e@ == self@[name@] && predicate.ensures((e,), false),
    {
        match self.get(name) {
            Some(e) => {
                if predicate(e) {
                    Some(e.duplicate())
                } else {
                    None
                }
            },
            None => None,
        }
    }

    /// The entries that are commands.
    pub fn get_commands(&self) -> (r: Config)
        ensures
            r@ == of_type(self@, EntryType::Command),
    {
        self.filtered(Some(EntryType::Command))
    }

    /// The command of that name, if there is one.
    pub fn get_command(&self, name: &str) -> (r: Option<Entry>)
        ensures
            r.is_some() == (self@.contains_key(name@) && self@[name@].entry_type
                == EntryType::Command),
            r.is_some() ==> r.unwrap()@ == self@[name@],
    {
        match self.get(name) {
            Some(e) => {
                if e.entry_type == EntryType::Command {
                    Some(e.duplicate())
                } else {
                    None
                }
            },
            None => None,
        }
    }

    /// The entries that are templates.
    pub fn get_models(&self) -> (r: Config)
        ensures
            r@ == of_type(self@, EntryType::Model),
    {
        self.filtered(Some(EntryType::Model))
    }

    /// The template of that name, if there is one.
    pub fn get_model(&self, name: &str) -> (r: Option<Entry>)
        ensures
            r.is_some() == (self@.contains_key(name@) && self@[name@].entry_type
                == EntryType::Model),
            r.is_some() ==> r.unwrap()@ == self@[name@],
    {
        match self.get(name) {
            Some(e) => {
                if e.entry_type == EntryType::Model {
                    Some(e.duplicate())
                } else {
                    None
                }
            },
            None => None,
        }
    }

    /// Flattens the templates that `cmd_config` extends into it: their lists
    /// in the order of `extends`, then the command's own; their variables
    /// overlaid in that order, then the command's own. Names that are not
    /// templates here are passed over. The result extends nothing and keeps
    /// the command's scalar fields.
    pub fn merge_with_template(&self, cmd_config: Entry) -> (r: Entry)
        ensures
            r@ == resolve_view(self@, cmd_config@),
    {
        let ghost m = self@;
        let ghost names = cmd_config@.extends;
        let mut result = Entry::new();
        result.entry_type = cmd_config.entry_type;
        result.enabled = cmd_config.enabled;
        result.override_parent = cmd_config.override_parent;
        result.chdir = match &cmd_config.chdir {
            Some(c) => Some(c.clone()),
            None => None,
        };
        result.die_with_parent = cmd_config.die_with_parent;
        result.new_session = cmd_config.new_session;
        assert(result@ =~= with_lists(cmd_config@, templates_of(m, names.take(0))));
        let mut i: usize = 0;
        while i < cmd_config.extends.len()
            invariant
                i <= cmd_config.extends@.len(),
                m == self@,
                names == cmd_config@.extends,
                result@ == with_lists(cmd_config@, templates_of(m, names.take(i as int))),
            decreases cmd_config.extends@.len() - i,
        {
            assert(names.take(i + 1).drop_last() =~= names.take(i as int));
            assert(names.take(i + 1).last() == cmd_config.extends@[i as int]@);
            match self.get_model(cmd_config.extends[i].as_str()) {
                Some(template) => {
                    append_entry(&mut result, &template);
                    assert(result@ =~= with_lists(
                        cmd_config@,
                        templates_of(m, names.take(i + 1)),
                    ));
                },
                None => {},
            }
            i = i + 1;
        }
        assert(names.take(i as int) =~= names);
        append_entry(&mut result, &cmd_config);
        assert(result@ =~= resolve_view(m, cmd_config@));
        result
    }

    /// The command of that name with its templates flattened in; nothing
    /// if there is no command of that name. A disabled command resolves too.
    pub fn resolve(&self, name: &str) -> (r: Option<Entry>)
        ensures
            r.is_some() == (self@.contains_key(name@) && self@[name@].entry_type
                == EntryType::Command),
            r.is_some() ==> r.unwrap()@ == resolve_view(self@, self@[name@]),
    {
        match self.get_command(name) {
            Some(cmd) => Some(self.merge_with_template(cmd)),
            None => None,
        }
    }

    /// The same as `merge_with_template`.
    pub fn merge_with_base(&self, cmd_config: Entry) -> (r: Entry)
        ensures
            r@ == resolve_view(self@, cmd_config@),
    {
        self.merge_with_template(cmd_config)
    }

    /// Aggregates `parent` with `child`, a configuration of higher
    /// precedence. A name found in one of them only keeps its entry. For a
    /// name found in both: a disabled child entry leaves the parent's as it
    /// is; a child entry marked to override replaces the parent's; otherwise
    /// the two are deep-merged.
    pub fn merge(parent: Config, child: Config) -> (r: Config)
        ensures
            r@ == aggregate(parent@, child@),
    {
        proof {
            use_type_invariant(&child);
        }
        let ghost base = parent@;
        let ghost s = config_pairs(child.items@);
        let mut merged = parent;
        assert(aggregate(base, pairs_map(s.take(0))) =~= base);
        let mut i: usize = 0;
        while i < child.items.len()
            invariant
                i <= child.items@.len(),
                s == config_pairs(child.items@),
                keys_distinct(s),
                merged@ == aggregate(base, pairs_map(s.take(i as int))),
            decreases child.items@.len() - i,
        {
            let ghost m0 = pairs_map(s.take(i as int));
            let ghost k = s[i as int].0;
            assert(s.take(i + 1).drop_last() =~= s.take(i as int));
            proof {
                lemma_pairs_map_dom(s.take(i as int), k);
                if m0.contains_key(k) {
                    let j = choose|j: int| 0 <= j < i && s.take(i as int)[j].0 == k;
                    assert(s[j].0 == k);
                }
            }
            let name = &child.items[i].0;
            let child_entry = &child.items[i].1;
            let found = merged.get(name.as_str());
            match found {
                Some(parent_entry) => {
                    if !child_entry.enabled {
                        assert(merged@ =~= aggregate(base, pairs_map(s.take(i + 1))));
                    } else if child_entry.override_parent {
                        let e = child_entry.duplicate();
                        merged.insert(name.clone(), e);
                        assert(merged@ =~= aggregate(base, pairs_map(s.take(i + 1))));
                    } else {
                        let p = parent_entry.duplicate();
                        let c = child_entry.duplicate();
                        let e = Entry::deep_merge(p, c);
                        merged.insert(name.clone(), e);
                        assert(merged@ =~= aggregate(base, pairs_map(s.take(i + 1))));
                    }
                },
                None => {
                    let e = child_entry.duplicate();
                    merged.insert(name.clone(), e);
                    assert(merged@ =~= aggregate(base, pairs_map(s.take(i + 1))));
                },
            }
            i = i + 1;
        }
        assert(s.take(i as int) =~= s);
        merged
    }
}

} // verus!
