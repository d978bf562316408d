//! The schema of a configuration document: a mapping from entry name to a
//! mapping of fields, read into a `Config` with defaults for absent fields.
use crate::config::Config;
use crate::entry::{default_view, strs, Entry, EntryType, EntryView};
use crate::env::EnvVars;
use vstd::prelude::*;

verus! {

/// A node of a structured document.
#[derive(Debug)]
pub enum Node {
    Null,
    Bool(bool),
    Str(String),
    List(Vec<Node>),
    Table(Vec<(Node, Node)>),
    /// A number, or a value under a tag: no field of the schema takes one,
    /// and a field that takes a string does not take a number's text either.
    Other,
}

/// Why a document could not be read.
#[derive(Debug, PartialEq, Eq)]
pub enum ParseError {
    /// The text is not a well-formed document; the message says where.
    Syntax(String),
    /// The document does not have the expected structure; the message names the place.
    Structure(String),
}

/// The text of a string node.
pub open spec fn text_of(n: Node) -> Option<Seq<char>> {
    match n {
        Node::Str(s) => Some(s@),
        _ => None,
    }
}

/// A list of strings, read from a list node of string nodes.
pub open spec fn str_list(n: Node) -> Option<Seq<Seq<char>>> {
    match n {
        Node::List(items) => if forall|i: int| 0 <= i < items@.len() ==> #[trigger] text_of(items@[i]).is_some() {
            Some(Seq::new(items@.len(), |i: int| text_of(items@[i]).unwrap()))
        } else {
            None
        },
        _ => None,
    }
}

/// The templates named by `extends`: one name, or a list of names.
pub open spec fn name_list(n: Node) -> Option<Seq<Seq<char>>> {
    match n {
        Node::Str(s) => Some(seq![s@]),
        _ => str_list(n),
    }
}

/// Variables read from a table of string keys and string values; a later
/// key wins. (A node read from YAML text never repeats a key: `serde_yaml`
/// refuses such text as malformed.)
pub open spec fn str_table(pairs: Seq<(Node, Node)>) -> Option<Map<Seq<char>, Seq<char>>>
    decreases pairs.len(),
{
    if pairs.len() == 0 {
        Some(Map::empty())
    } else {
        match (str_table(pairs.drop_last()), text_of(pairs.last().0), text_of(pairs.last().1)) {
            (Some(m), Some(k), Some(v)) => Some(m.insert(k, v)),
            _ => None,
        }
    }
}

/// `e` with the list field named `key` set to `v`; `None` for another name.
pub open spec fn set_list(e: EntryView, key: Seq<char>, v: Seq<Seq<char>>) -> Option<EntryView> {
    if key == "share"@ {
        Some(EntryView { share: v, ..e })
    } else if key == "bind"@ {
        Some(EntryView { bind: v, ..e })
    } else if key == "ro_bind"@ {
        Some(EntryView { ro_bind: v, ..e })
    } else if key == "dev_bind"@ {
        Some(EntryView { dev_bind: v, ..e })
    } else if key == "bind_try"@ {
        Some(EntryView { bind_try: v, ..e })
    } else if key == "ro_bind_try"@ {
        Some(EntryView { ro_bind_try: v, ..e })
    } else if key == "dev_bind_try"@ {
        Some(EntryView { dev_bind_try: v, ..e })
    } else if key == "tmpfs"@ {
        Some(EntryView { tmpfs: v, ..e })
    } else if key == "cap"@ {
        Some(EntryView { cap: v, ..e })
    } else if key == "unset_env"@ {
        Some(EntryView { unset_env: v, ..e })
    } else {
        None
    }
}

/// Whether `key` names one of the list fields.
pub open spec fn is_list_key(key: Seq<char>) -> bool {
    set_list(default_view(), key, Seq::empty()).is_some()
}

/// `e` after reading the field `key` with value `v`; `None` where the value
/// has the wrong shape. Keys outside the schema leave `e` as it is. A
/// string field takes a string node only: a number or a boolean in its
/// place has the wrong shape.
pub open spec fn read_field(e: EntryView, key: Seq<char>, v: Node) -> Option<EntryView> {
    if key == "type"@ {
        match text_of(v) {
            Some(t) => if t == "command"@ {
                Some(EntryView { entry_type: EntryType::Command, ..e })
            } else if t == "model"@ {
                Some(EntryView { entry_type: EntryType::Model, ..e })
            } else {
                None
            },
            None => None,
        }
    } else if key == "enabled"@ || key == "override"@ || key == "die_with_parent"@ || key
        == "new_session"@ {
        match v {
            Node::Bool(b) => if key == "enabled"@ {
                Some(EntryView { enabled: b, ..e })
            } else if key == "override"@ {
                Some(EntryView { override_parent: b, ..e })
            } else if key == "die_with_parent"@ {
                Some(EntryView { die_with_parent: b, ..e })
            } else {
                Some(EntryView { new_session: b, ..e })
            },
            _ => None,
        }
    } else if key == "extends"@ {
        match name_list(v) {
            Some(l) => Some(EntryView { extends: l, ..e }),
            None => None,
        }
    } else if key == "chdir"@ {
        match v {
            Node::Null => Some(EntryView { chdir: None, ..e }),
            Node::Str(s) => Some(EntryView { chdir: Some(s@), ..e }),
            _ => None,
        }
    } else if key == "env"@ {
        match v {
            Node::Table(pairs) => match str_table(pairs@) {
                Some(m) => Some(EntryView { env: m, ..e }),
                None => None,
            },
            _ => None,
        }
    } else if is_list_key(key) {
        match str_list(v) {
            Some(l) => set_list(e, key, l),
            None => None,
        }
    } else {
        Some(e)
    }
}

/// An entry read from its fields in order, starting from the defaults; a
/// key that is not a string is passed over.
pub open spec fn read_fields(pairs: Seq<(Node, Node)>) -> Option<EntryView>
    decreases pairs.len(),
{
    if pairs.len() == 0 {
        Some(default_view())
    } else {
        match read_fields(pairs.drop_last()) {
            Some(e) => match text_of(pairs.last().0) {
                Some(k) => read_field(e, k, pairs.last().1),
                None => Some(e),
            },
            None => None,
        }
    }
}

/// An entry read from a table node.
pub open spec fn read_entry(n: Node) -> Option<EntryView> {
    match n {
        Node::Table(pairs) => read_fields(pairs@),
        _ => None,
    }
}

/// Entries read from the pairs of the document; names are strings, a later
/// name wins. (A node read from YAML text never repeats a name: `serde_yaml`
/// refuses such text as malformed.)
pub open spec fn read_entries(pairs: Seq<(Node, Node)>) -> Option<Map<Seq<char>, EntryView>>
    decreases pairs.len(),
{
    if pairs.len() == 0 {
        Some(Map::empty())
    } else {
        match (read_entries(pairs.drop_last()), text_of(pairs.last().0), read_entry(pairs.last().1)) {
            (Some(m), Some(k), Some(e)) => Some(m.insert(k, e)),
            _ => None,
        }
    }
}

/// The configuration that a document denotes: an empty document holds no entries.
pub open spec fn read_document(n: Node) -> Option<Map<Seq<char>, EntryView>> {
    match n {
        Node::Null => Some(Map::empty()),
        Node::Table(pairs) => read_entries(pairs@),
        _ => None,
    }
}

/// An entry whose `extends` field holds one name reads the same as one
/// whose `extends` field holds a list of that name alone.
pub proof fn lemma_extends_name_or_list(
    pairs: Seq<(Node, Node)>,
    i: int,
    name: String,
    list: Vec<Node>,
)
    requires
        0 <= i < pairs.len(),
        text_of(pairs[i].0) == Some("extends"@),
        pairs[i].1 == Node::Str(name),
        list@ == seq![Node::Str(name)],
    ensures
        read_fields(pairs) == read_fields(pairs.update(i, (pairs[i].0, Node::List(list)))),
    decreases pairs.len(),
{
    let q = pairs.update(i, (pairs[i].0, Node::List(list)));
    if i == pairs.len() - 1 {
        assert(q.drop_last() =~= pairs.drop_last());
        reveal_strlit("extends");
        reveal_strlit("type");
        reveal_strlit("enabled");
        reveal_strlit("override");
        reveal_strlit("die_with_parent");
        reveal_strlit("new_session");
        assert(str_list(Node::List(list)) == Some(seq![name@])) by {
            assert(text_of(list@[0]).is_some());
            assert(Seq::new(list@.len(), |j: int| text_of(list@[j]).unwrap()) =~= seq![name@]);
        }
        assert("extends"@.len() != "type"@.len());
        assert("extends"@[1] != "enabled"@[1]);
        assert("extends"@.len() != "override"@.len());
        assert("extends"@.len() != "die_with_parent"@.len());
        assert("extends"@.len() != "new_session"@.len());
        assert(q.last() == (pairs[i].0, Node::List(list)));
        if let Some(e) = read_fields(pairs.drop_last()) {
            assert(read_field(e, "extends"@, Node::Str(name)) == read_field(e, "extends"@, Node::List(list)));
        }
    } else {
        lemma_extends_name_or_list(pairs.drop_last(), i, name, list);
        assert(q.drop_last() =~= pairs.drop_last().update(i, (pairs[i].0, Node::List(list))));
        assert(q.last() == pairs.last());
    }
}

fn key_is(key: &String, name: &str) -> (r: bool)
    ensures
        r == (key@ == name@),
{
    *key == name.to_owned()
}

fn structure_error(what: &str) -> (r: ParseError)
    ensures
        r is Structure,
{
    ParseError::Structure(what.to_owned())
}

fn read_text(n: &Node) -> (r: Option<String>)
    ensures
        r.is_some() == text_of(*n).is_some(),
        r.is_some() ==> r.unwrap()@ == text_of(*n).unwrap(),
{
    match n {
        Node::Str(s) => Some(s.clone()),
        _ => None,
    }
}

fn read_str_list(n: &Node) -> (r: Option<Vec<String>>)
    ensures
        r.is_some() == str_list(*n).is_some(),
        r.is_some() ==> strs(r.unwrap()@) == str_list(*n).unwrap(),
{
    match n {
        Node::List(items) => {
            let mut out: Vec<String> = Vec::new();
            let mut i: usize = 0;
            while i < items.len()
                invariant
                    i <= items@.len(),
                    *n == Node::List(*items),
                    out@.len() == i,
                    forall|j: int| 0 <= j < i ==> #[trigger] text_of(items@[j]) == Some(out@[j]@),
                decreases items@.len() - i,
            {
                match read_text(&items[i]) {
                    Some(s) => out.push(s),
                    None => {
                        assert(!text_of(items@[i as int]).is_some());
                        return None;
                    },
                }
                i = i + 1;
            }
            assert(strs(out@) =~= Seq::new(items@.len(), |j: int| text_of(items@[j]).unwrap()));
            Some(out)
        },
        _ => None,
    }
}

fn read_name_list(n: &Node) -> (r: Option<Vec<String>>)
    ensures
        r.is_some() == name_list(*n).is_some(),
        r.is_some() ==> strs(r.unwrap()@) == name_list(*n).unwrap(),
{
    match n {
        Node::Str(s) => {
            let v = vec![s.clone()];
            assert(strs(v@) =~= seq![s@]);
            Some(v)
        },
        _ => read_str_list(n),
    }
}

fn read_str_table(pairs: &Vec<(Node, Node)>) -> (r: Option<EnvVars>)
    ensures
        r.is_some() == str_table(pairs@).is_some(),
        r.is_some() ==> r.unwrap()@ == str_table(pairs@).unwrap(),
{
    let mut env = EnvVars::new();
    let mut i: usize = 0;
    while i < pairs.len()
        invariant
            i <= pairs@.len(),
            str_table(pairs@.take(i as int)) == Some(env@),
        decreases pairs@.len() - i,
    {
        assert(pairs@.take(i + 1).drop_last() =~= pairs@.take(i as int));
        assert(pairs@.take(i + 1).last() == pairs@[i as int]);
        match (read_text(&pairs[i].0), read_text(&pairs[i].1)) {
            (Some(k), Some(v)) => env.insert(k, v),
            _ => {
                proof {
                    lemma_str_table_prefix(pairs@, i as int + 1);
                }
                return None;
            },
        }
        i = i + 1;
    }
    assert(pairs@.take(i as int) =~= pairs@);
    Some(env)
}

proof fn lemma_str_table_prefix(pairs: Seq<(Node, Node)>, n: int)
    requires
        0 <= n <= pairs.len(),
        str_table(pairs.take(n)).is_none(),
    ensures
        str_table(pairs).is_none(),
    decreases pairs.len() - n,
{
    if n < pairs.len() {
        assert(pairs.take(n + 1).drop_last() =~= pairs.take(n));
        lemma_str_table_prefix(pairs, n + 1);
    } else {
        assert(pairs.take(n) =~= pairs);
    }
}

/// Sets the list field named `key`; false where `key` names none.
fn store_list(e: &mut Entry, key: &String, v: Vec<String>) -> (r: bool)
    ensures
        r == set_list(old(e)@, key@, strs(v@)).is_some(),
        r ==> final(e)@ == set_list(old(e)@, key@, strs(v@)).unwrap(),
        !r ==> final(e)@ == old(e)@,
{
    if key_is(key, "share") {
        e.share = v;
    } else if key_is(key, "bind") {
        e.bind = v;
    } else if key_is(key, "ro_bind") {
        e.ro_bind = v;
    } else if key_is(key, "dev_bind") {
        e.dev_bind = v;
    } else if key_is(key, "bind_try") {
        e.bind_try = v;
    } else if key_is(key, "ro_bind_try") {
        e.ro_bind_try = v;
    } else if key_is(key, "dev_bind_try") {
        e.dev_bind_try = v;
    } else if key_is(key, "tmpfs") {
        e.tmpfs = v;
    } else if key_is(key, "cap") {
        e.cap = v;
    } else if key_is(key, "unset_env") {
        e.unset_env = v;
    } else {
        return false;
    }
    assert(e@ =~= set_list(old(e)@, key@, strs(v@)).unwrap());
    true
}

/// Reads one field into `e`; false where its value has the wrong shape.
fn read_field_into(e: &mut Entry, key: &String, v: &Node) -> (r: bool)
    ensures
        r == read_field(old(e)@, key@, *v).is_some(),
        r ==> final(e)@ == read_field(old(e)@, key@, *v).unwrap(),
{
    if key_is(key, "type") {
        match read_text(v) {
            Some(t) => {
                if key_is(&t, "command") {
                    e.entry_type = EntryType::Command;
                } else if key_is(&t, "model") {
                    e.entry_type = EntryType::Model;
                } else {
                    return false;
                }
            },
            None => {
                return false;
            },
        }
    } else if key_is(key, "enabled") || key_is(key, "override") || key_is(key, "die_with_parent")
        || key_is(key, "new_session") {
        match v {
            Node::Bool(b) => {
                if key_is(key, "enabled") {
                    e.enabled = *b;
                } else if key_is(key, "override") {
                    e.override_parent = *b;
                } else if key_is(key, "die_with_parent") {
                    e.die_with_parent = *b;
                } else {
                    e.new_session = *b;
                }
            },
            _ => {
                return false;
            },
        }
    } else if key_is(key, "extends") {
        match read_name_list(v) {
            Some(l) => {
                e.extends = l;
            },
            None => {
                return false;
            },
        }
    } else if key_is(key, "chdir") {
        match v {
            Node::Null => {
                e.chdir = None;
            },
            Node::Str(s) => {
                e.chdir = Some(s.clone());
            },
            _ => {
                return false;
            },
        }
    } else if key_is(key, "env") {
        match v {
            Node::Table(pairs) => match read_str_table(pairs) {
                Some(m) => {
                    e.env = m;
                },
                None => {
                    return false;
                },
            },
            _ => {
                return false;
            },
        }
    } else {
        let mut probe = Entry::new();
        let nothing: Vec<String> = Vec::new();
        assert(strs(nothing@) =~= Seq::<Seq<char>>::empty());
        let known = store_list(&mut probe, key, nothing);
        if known {
            match read_str_list(v) {
                Some(l) => {
                    let ok = store_list(e, key, l);
                    return ok;
                },
                None => {
                    return false;
                },
            }
        } else {
            return true;
        }
    }
    assert(e@ =~= read_field(old(e)@, key@, *v).unwrap());
    true
}

proof fn lemma_read_fields_prefix(pairs: Seq<(Node, Node)>, n: int)
    requires
        0 <= n <= pairs.len(),
        read_fields(pairs.take(n)).is_none(),
    ensures
        read_fields(pairs).is_none(),
    decreases pairs.len() - n,
{
    if n < pairs.len() {
        assert(pairs.take(n + 1).drop_last() =~= pairs.take(n));
        lemma_read_fields_prefix(pairs, n + 1);
    } else {
        assert(pairs.take(n) =~= pairs);
    }
}

proof fn lemma_read_entries_prefix(pairs: Seq<(Node, Node)>, n: int)
    requires
        0 <= n <= pairs.len(),
        read_entries(pairs.take(n)).is_none(),
    ensures
        read_entries(pairs).is_none(),
    decreases pairs.len() - n,
{
    if n < pairs.len() {
        assert(pairs.take(n + 1).drop_last() =~= pairs.take(n));
        lemma_read_entries_prefix(pairs, n + 1);
    } else {
        assert(pairs.take(n) =~= pairs);
    }
}

impl Entry {
    /// Reads an entry from a table node: absent fields take their defaults,
    /// keys outside the schema are passed over, and a field whose value has
    /// the wrong shape is an error.
    pub fn from_node(n: &Node) -> (r: Result<Entry, ParseError>)
        ensures
            r.is_ok() == read_entry(*n).is_some(),
            r.is_ok() ==> r.unwrap()@ == read_entry(*n).unwrap(),
            r.is_err() ==> r.unwrap_err() is Structure,
    {
        match n {
            Node::Table(pairs) => {
                let mut e = Entry::new();
                let mut i: usize = 0;
                while i < pairs.len()
                    invariant
                        i <= pairs@.len(),
                        *n == Node::Table(*pairs),
                        read_fields(pairs@.take(i as int)) == Some(e@),
                    decreases pairs@.len() - i,
                {
                    assert(pairs@.take(i + 1).drop_last() =~= pairs@.take(i as int));
                    assert(pairs@.take(i + 1).last() == pairs@[i as int]);
                    match &pairs[i].0 {
                        Node::Str(k) => {
                            if !read_field_into(&mut e, k, &pairs[i].1) {
                                proof {
                                    lemma_read_fields_prefix(pairs@, i as int + 1);
                                }
                                return Err(structure_error("a field of an entry has the wrong shape"));
                            }
                        },
                        _ => {},
                    }
                    i = i + 1;
                }
                assert(pairs@.take(i as int) =~= pairs@);
                Ok(e)
            },
            _ => Err(structure_error("an entry is not a mapping")),
        }
    }
}

impl Config {
    /// Reads a configuration from a document node: an empty document holds
    /// no entries; otherwise it is a table from entry name to entry.
    pub fn from_node(n: &Node) -> (r: Result<Config, ParseError>)
        ensures
            r.is_ok() == read_document(*n).is_some(),
            r.is_ok() ==> r.unwrap()@ == read_document(*n).unwrap(),
            r.is_err() ==> r.unwrap_err() is Structure,
    {
        match n {
            Node::Null => Ok(Config::new()),
            Node::Table(pairs) => {
                let mut c = Config::new();
                let mut i: usize = 0;
                while i < pairs.len()
                    invariant
                        i <= pairs@.len(),
                        *n == Node::Table(*pairs),
                        read_entries(pairs@.take(i as int)) == Some(c@),
                    decreases pairs@.len() - i,
                {
                    assert(pairs@.take(i + 1).drop_last() =~= pairs@.take(i as int));
                    assert(pairs@.take(i + 1).last() == pairs@[i as int]);
                    let name = match read_text(&pairs[i].0) {
                        Some(k) => k,
                        None => {
                            proof {
                                lemma_read_entries_prefix(pairs@, i as int + 1);
                            }
                            return Err(structure_error("an entry name is not a string"));
                        },
                    };
                    match Entry::from_node(&pairs[i].1) {
                        Ok(e) => c.insert(name, e),
                        Err(err) => {
                            proof {
                                lemma_read_entries_prefix(pairs@, i as int + 1);
                            }
                            return Err(err);
                        },
                    }
                    i = i + 1;
                }
                assert(pairs@.take(i as int) =~= pairs@);
                Ok(c)
            },
            _ => Err(structure_error("the document is not a mapping")),
        }
    }
}

} // verus!
