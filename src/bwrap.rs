//! The `bwrap` command line for a resolved entry.
use crate::entry::{contains_str, opt_str, strs, Entry, EntryView};
use vstd::prelude::*;
use vstd::string::{StrSliceExecFns, StringExecFns};

verus! {

/// The text before the first `:` of `s` and the text after it, if `s` holds one.
pub open spec fn split_colon(s: Seq<char>) -> Option<(Seq<char>, Seq<char>)>
    decreases s.len(),
{
    if s.len() == 0 {
        None
    } else if s[0] == ':' {
        Some((Seq::empty(), s.drop_first()))
    } else {
        match split_colon(s.drop_first()) {
            Some((a, b)) => Some((seq![s[0]] + a, b)),
            None => None,
        }
    }
}

/// The source and destination of a mount written `source:destination`,
/// or as one path that serves as both.
pub open spec fn mount_pair(s: Seq<char>) -> (Seq<char>, Seq<char>) {
    match split_colon(s) {
        Some(p) => p,
        None => (s, s),
    }
}

pub open spec fn pair_views(ps: Seq<(String, String)>) -> Seq<(Seq<char>, Seq<char>)> {
    ps.map_values(|p: (String, String)| (p.0@, p.1@))
}

/// `flag` if `b` holds.
pub open spec fn flag_if(b: bool, flag: Seq<char>) -> Seq<Seq<char>> {
    if b {
        seq![flag]
    } else {
        Seq::empty()
    }
}

/// The flag that unshares namespace `ns`, unless `share` keeps it shared.
pub open spec fn unshare(share: Seq<Seq<char>>, ns: Seq<char>, flag: Seq<char>) -> Seq<Seq<char>> {
    flag_if(!share.contains(ns), flag)
}

/// Every namespace is unshared except those that `share` names.
pub open spec fn unshare_args(share: Seq<Seq<char>>) -> Seq<Seq<char>> {
    unshare(share, "user"@, "--unshare-user"@) + unshare(share, "pid"@, "--unshare-pid"@)
        + unshare(share, "network"@, "--unshare-net"@) + unshare(share, "ipc"@, "--unshare-ipc"@)
        + unshare(share, "uts"@, "--unshare-uts"@) + unshare(share, "cgroup"@, "--unshare-cgroup"@)
}

/// `flag source destination` for each mount.
pub open spec fn mount_args(flag: Seq<char>, ps: Seq<(Seq<char>, Seq<char>)>) -> Seq<Seq<char>>
    decreases ps.len(),
{
    if ps.len() == 0 {
        Seq::empty()
    } else {
        mount_args(flag, ps.drop_last()) + seq![flag, ps.last().0, ps.last().1]
    }
}

/// `flag item` for each item.
pub open spec fn item_args(flag: Seq<char>, items: Seq<Seq<char>>) -> Seq<Seq<char>>
    decreases items.len(),
{
    if items.len() == 0 {
        Seq::empty()
    } else {
        item_args(flag, items.drop_last()) + seq![flag, items.last()]
    }
}

/// `--chdir dir`, if there is a directory.
pub open spec fn chdir_args(dir: Option<Seq<char>>) -> Seq<Seq<char>> {
    match dir {
        Some(d) => seq!["--chdir"@, d],
        None => Seq::empty(),
    }
}

/// The mounts of an entry, with paths as they will be handed over.
pub struct Mounts {
    pub bind: Vec<(String, String)>,
    pub ro_bind: Vec<(String, String)>,
    pub dev_bind: Vec<(String, String)>,
    pub bind_try: Vec<(String, String)>,
    pub ro_bind_try: Vec<(String, String)>,
    pub dev_bind_try: Vec<(String, String)>,
}

pub struct MountsView {
    pub bind: Seq<(Seq<char>, Seq<char>)>,
    pub ro_bind: Seq<(Seq<char>, Seq<char>)>,
    pub dev_bind: Seq<(Seq<char>, Seq<char>)>,
    pub bind_try: Seq<(Seq<char>, Seq<char>)>,
    pub ro_bind_try: Seq<(Seq<char>, Seq<char>)>,
    pub dev_bind_try: Seq<(Seq<char>, Seq<char>)>,
}

impl View for Mounts {
    type V = MountsView;

    open spec fn view(&self) -> MountsView {
        MountsView {
            bind: pair_views(self.bind@),
            ro_bind: pair_views(self.ro_bind@),
            dev_bind: pair_views(self.dev_bind@),
            bind_try: pair_views(self.bind_try@),
            ro_bind_try: pair_views(self.ro_bind_try@),
            dev_bind_try: pair_views(self.dev_bind_try@),
        }
    }
}

/// A path that expansion leaves as it is: no `$` and no leading `~`.
pub open spec fn plain_path(p: Seq<char>) -> bool {
    !p.contains('$') && !(p.len() > 0 && p[0] == '~')
}

/// `q` may be what `p` expands to: `p` itself when `p` is plain; without
/// a `$`, `p` itself or a home directory in place of its leading `~`.
pub open spec fn expands_to(p: Seq<char>, q: Seq<char>) -> bool {
    &&& plain_path(p) ==> q == p
    &&& !p.contains('$') ==> (q == p || exists|home: Seq<char>| q == home + p.drop_first())
}

/// `ps` may be the mounts of `items` after expansion, one for each item.
pub open spec fn mounts_expand(items: Seq<Seq<char>>, ps: Seq<(Seq<char>, Seq<char>)>) -> bool {
    &&& ps.len() == items.len()
    &&& forall|j: int|
        0 <= j < items.len() ==> expands_to(#[trigger] mount_pair(items[j]).0, ps[j].0)
            && expands_to(mount_pair(items[j]).1, ps[j].1)
}

/// `m` may be the mounts of `e` after expansion, field by field.
pub open spec fn mounts_fit(e: EntryView, m: MountsView) -> bool {
    &&& mounts_expand(e.bind, m.bind)
    &&& mounts_expand(e.ro_bind, m.ro_bind)
    &&& mounts_expand(e.dev_bind, m.dev_bind)
    &&& mounts_expand(e.bind_try, m.bind_try)
    &&& mounts_expand(e.ro_bind_try, m.ro_bind_try)
    &&& mounts_expand(e.dev_bind_try, m.dev_bind_try)
}

/// `dir` may be the working directory `chdir` after expansion.
pub open spec fn dir_fits(chdir: Option<Seq<char>>, dir: Option<Seq<char>>) -> bool {
    match (chdir, dir) {
        (Some(p), Some(q)) => expands_to(p, q),
        (None, None) => true,
        _ => false,
    }
}

/// The flags that come first: `die_with_parent`, `new_session`, and the namespaces.
pub open spec fn head_args(e: EntryView) -> Seq<Seq<char>> {
    flag_if(e.die_with_parent, "--die-with-parent"@) + flag_if(e.new_session, "--new-session"@)
        + unshare_args(e.share)
}

/// The mount arguments, kind by kind.
pub open spec fn all_mount_args(m: MountsView) -> Seq<Seq<char>> {
    mount_args("--bind"@, m.bind) + mount_args("--ro-bind"@, m.ro_bind) + mount_args(
        "--dev-bind"@,
        m.dev_bind,
    ) + mount_args("--bind-try"@, m.bind_try) + mount_args("--ro-bind-try"@, m.ro_bind_try)
        + mount_args("--dev-bind-try"@, m.dev_bind_try)
}

/// The arguments after the mounts: `tmpfs`, the working directory,
/// capabilities, variables to set in order, variables to unset.
pub open spec fn tail_args(
    e: EntryView,
    env: Seq<(Seq<char>, Seq<char>)>,
    dir: Option<Seq<char>>,
) -> Seq<Seq<char>> {
    item_args("--tmpfs"@, e.tmpfs) + chdir_args(dir) + item_args("--cap-add"@, e.cap) + mount_args(
        "--setenv"@,
        env,
    ) + item_args("--unsetenv"@, e.unset_env)
}

/// The arguments for entry `e`, whose variables are `env` in order, with
/// mounts `m` and working directory `dir`.
pub open spec fn sandbox_args(
    e: EntryView,
    env: Seq<(Seq<char>, Seq<char>)>,
    m: MountsView,
    dir: Option<Seq<char>>,
) -> Seq<Seq<char>> {
    head_args(e) + all_mount_args(m) + tail_args(e, env, dir)
}

/// Words joined by single spaces.
pub open spec fn join_words(words: Seq<Seq<char>>) -> Seq<char>
    decreases words.len(),
{
    if words.len() == 0 {
        Seq::empty()
    } else if words.len() == 1 {
        words[0]
    } else {
        join_words(words.drop_last()) + " "@ + words.last()
    }
}

/// Splitting at the first `:` of `s`, found at `i`, gives the text before
/// and the text after it; with no `:` at all there is nothing to split.
proof fn lemma_split_colon_at(s: Seq<char>, i: int)
    requires
        0 <= i <= s.len(),
        forall|j: int| 0 <= j < i ==> s[j] != ':',
        i < s.len() ==> s[i] == ':',
    ensures
        i < s.len() ==> split_colon(s) == Some((s.take(i), s.skip(i + 1))),
        i == s.len() ==> split_colon(s).is_none(),
    decreases s.len(),
{
    if s.len() > 0 && i > 0 {
        let t = s.drop_first();
        assert forall|j: int| 0 <= j < i - 1 implies t[j] != ':' by {
            assert(t[j] == s[j + 1]);
        }
        if i < s.len() {
            assert(t[i - 1] == s[i]);
        }
        lemma_split_colon_at(t, i - 1);
        if i < s.len() {
            assert(seq![s[0]] + t.take(i - 1) =~= s.take(i));
            assert(t.skip(i) =~= s.skip(i + 1));
        }
    } else if s.len() > 0 {
        assert(s.drop_first() =~= s.skip(1));
        assert(s.take(0) =~= Seq::<char>::empty());
    }
}

/// Splits `s` at its first `:`, if it holds one.
fn split_at_colon(s: &str) -> (r: Option<(String, String)>)
    ensures
        r.is_some() == split_colon(s@).is_some(),
        r.is_some() ==> (r.unwrap().0@, r.unwrap().1@) == split_colon(s@).unwrap(),
{
    let n = s.unicode_len();
    let mut i: usize = 0;
    while i < n
        invariant
            n == s@.len(),
            i <= n,
            forall|j: int| 0 <= j < i ==> s@[j] != ':',
        decreases n - i,
    {
        if s.get_char(i) == ':' {
            proof {
                lemma_split_colon_at(s@, i as int);
            }
            let before = s.substring_char(0, i).to_owned();
            let after = s.substring_char(i + 1, n).to_owned();
            assert(s@.subrange(0, i as int) =~= s@.take(i as int));
            assert(s@.subrange(i + 1, n as int) =~= s@.skip(i + 1));
            return Some((before, after));
        }
        i = i + 1;
    }
    proof {
        lemma_split_colon_at(s@, i as int);
    }
    None
}

/// Relies on `shellexpand::full`: expands `~` and environment variables;
/// `None` where a variable is not set. What it gives depends on the
/// environment of the process, but a path with no `$` comes back as it is
/// or with the home directory in place of a leading `~`, and one with no
/// `$` and no leading `~` comes back as it is.
#[verifier::external_body]
fn expand_path(s: &str) -> (r: Option<String>)
    ensures
        plain_path(s@) ==> r.is_some() && r.unwrap()@ == s@,
        !s@.contains('$') ==> r.is_some() && (r.unwrap()@ == s@ || exists|home: Seq<char>|
            r.unwrap()@ == home + s@.drop_first()),
{
    shellexpand::full(s).ok().map(|x| x.into_owned())
}

/// A path with `~` and variables expanded, or as it is where that fails.
fn expanded(s: &String) -> (r: String)
    ensures
        expands_to(s@, r@),
{
    match expand_path(s.as_str()) {
        Some(x) => x,
        None => s.clone(),
    }
}

/// The source and destination of a mount item.
pub fn mount_of(s: &String) -> (r: (String, String))
    ensures
        (r.0@, r.1@) == mount_pair(s@),
{
    match split_at_colon(s.as_str()) {
        Some(p) => p,
        None => (s.clone(), s.clone()),
    }
}

/// The mounts of a list of mount items, paths unexpanded.
pub fn mounts_of(items: &Vec<String>) -> (r: Vec<(String, String)>)
    ensures
        pair_views(r@) == strs(items@).map_values(|s: Seq<char>| mount_pair(s)),
{
    let mut r: Vec<(String, String)> = Vec::new();
    let mut i: usize = 0;
    while i < items.len()
        invariant
            i <= items@.len(),
            pair_views(r@) == strs(items@).take(i as int).map_values(|s: Seq<char>| mount_pair(s)),
        decreases items@.len() - i,
    {
        let p = mount_of(&items[i]);
        let ghost before = r@;
        r.push(p);
        assert(r@ == before.push(p));
        assert(strs(items@)[i as int] == items@[i as int]@);
        assert(pair_views(r@) =~= pair_views(before).push((p.0@, p.1@)));
        assert(pair_views(r@) =~= strs(items@).take(i + 1).map_values(|s: Seq<char>| mount_pair(s)));
        i = i + 1;
    }
    assert(strs(items@).take(i as int) =~= strs(items@));
    r
}

/// The mounts of a list of mount items, each path expanded.
fn expanded_mounts(items: &Vec<String>) -> (r: Vec<(String, String)>)
    ensures
        mounts_expand(strs(items@), pair_views(r@)),
{
    let mut r: Vec<(String, String)> = Vec::new();
    let mut i: usize = 0;
    while i < items.len()
        invariant
            i <= items@.len(),
            mounts_expand(strs(items@).take(i as int), pair_views(r@)),
        decreases items@.len() - i,
    {
        let (src, dst) = mount_of(&items[i]);
        let p = (expanded(&src), expanded(&dst));
        let ghost before = r@;
        r.push(p);
        assert(r@ == before.push(p));
        assert(strs(items@).take(i + 1)[i as int] == items@[i as int]@);
        assert(pair_views(r@) =~= pair_views(before).push((p.0@, p.1@)));
        assert(forall|j: int| 0 <= j < i ==> strs(items@).take(i + 1)[j] == #[trigger] strs(items@).take(i as int)[j]);
        i = i + 1;
    }
    assert(strs(items@).take(i as int) =~= strs(items@));
    r
}

fn push_flag(args: &mut Vec<String>, b: bool, flag: &str)
    ensures
        strs(final(args)@) == strs(old(args)@) + flag_if(b, flag@),
{
    let ghost a = args@;
    if b {
        args.push(flag.to_owned());
    }
    assert(strs(args@) =~= strs(a) + flag_if(b, flag@));
}

fn push_unshare(args: &mut Vec<String>, share: &Vec<String>, ns: &str, flag: &str)
    ensures
        strs(final(args)@) == strs(old(args)@) + unshare(strs(share@), ns@, flag@),
{
    let shared = contains_str(share, ns);
    push_flag(args, !shared, flag);
}

fn push_mounts(args: &mut Vec<String>, flag: &str, ps: &Vec<(String, String)>)
    ensures
        strs(final(args)@) == strs(old(args)@) + mount_args(flag@, pair_views(ps@)),
{
    let ghost a = strs(args@);
    let ghost v = pair_views(ps@);
    let mut i: usize = 0;
    while i < ps.len()
        invariant
            i <= ps@.len(),
            v == pair_views(ps@),
            strs(args@) == a + mount_args(flag@, v.take(i as int)),
        decreases ps@.len() - i,
    {
        assert(v.take(i + 1).drop_last() =~= v.take(i as int));
        let ghost before = strs(args@);
        args.push(flag.to_owned());
        args.push(ps[i].0.clone());
        args.push(ps[i].1.clone());
        assert(strs(args@) =~= before + seq![flag@, v[i as int].0, v[i as int].1]);
        assert(strs(args@) =~= a + mount_args(flag@, v.take(i + 1)));
        i = i + 1;
    }
    assert(v.take(i as int) =~= v);
}

fn push_items(args: &mut Vec<String>, flag: &str, items: &Vec<String>)
    ensures
        strs(final(args)@) == strs(old(args)@) + item_args(flag@, strs(items@)),
{
    let ghost a = strs(args@);
    let ghost v = strs(items@);
    let mut i: usize = 0;
    while i < items.len()
        invariant
            i <= items@.len(),
            v == strs(items@),
            strs(args@) == a + item_args(flag@, v.take(i as int)),
        decreases items@.len() - i,
    {
        assert(v.take(i + 1).drop_last() =~= v.take(i as int));
        let ghost before = strs(args@);
        args.push(flag.to_owned());
        args.push(items[i].clone());
        assert(strs(args@) =~= before + seq![flag@, v[i as int]]);
        assert(strs(args@) =~= a + item_args(flag@, v.take(i + 1)));
        i = i + 1;
    }
    assert(v.take(i as int) =~= v);
}

fn push_unshare_all(args: &mut Vec<String>, share: &Vec<String>)
    ensures
        strs(final(args)@) == strs(old(args)@) + unshare_args(strs(share@)),
{
    let ghost a = strs(args@);
    let ghost sh = strs(share@);
    push_unshare(args, share, "user", "--unshare-user");
    push_unshare(args, share, "pid", "--unshare-pid");
    let ghost a2 = strs(args@);
    push_unshare(args, share, "network", "--unshare-net");
    push_unshare(args, share, "ipc", "--unshare-ipc");
    push_unshare(args, share, "uts", "--unshare-uts");
    push_unshare(args, share, "cgroup", "--unshare-cgroup");
    assert(a2 =~= a + (unshare(sh, "user"@, "--unshare-user"@) + unshare(sh, "pid"@, "--unshare-pid"@)));
    assert(strs(args@) =~= a + unshare_args(sh));
}

fn push_head(args: &mut Vec<String>, config: &Entry)
    ensures
        strs(final(args)@) == strs(old(args)@) + head_args(config@),
{
    let ghost a = strs(args@);
    push_flag(args, config.die_with_parent, "--die-with-parent");
    push_flag(args, config.new_session, "--new-session");
    push_unshare_all(args, &config.share);
    assert(strs(args@) =~= a + head_args(config@));
}

fn push_all_mounts(args: &mut Vec<String>, mounts: &Mounts)
    ensures
        strs(final(args)@) == strs(old(args)@) + all_mount_args(mounts@),
{
    let ghost a = strs(args@);
    push_mounts(args, "--bind", &mounts.bind);
    push_mounts(args, "--ro-bind", &mounts.ro_bind);
    push_mounts(args, "--dev-bind", &mounts.dev_bind);
    push_mounts(args, "--bind-try", &mounts.bind_try);
    push_mounts(args, "--ro-bind-try", &mounts.ro_bind_try);
    push_mounts(args, "--dev-bind-try", &mounts.dev_bind_try);
    assert(strs(args@) =~= a + all_mount_args(mounts@));
}

fn push_tail(args: &mut Vec<String>, config: &Entry, chdir: &Option<String>)
    ensures
        strs(final(args)@) == strs(old(args)@) + tail_args(
            config@,
            config.env.pairs(),
            opt_str(*chdir),
        ),
{
    let ghost a = strs(args@);
    push_items(args, "--tmpfs", &config.tmpfs);
    let ghost before = strs(args@);
    match chdir {
        Some(d) => {
            args.push("--chdir".to_owned());
            args.push(d.clone());
        },
        None => {},
    }
    assert(strs(args@) =~= before + chdir_args(opt_str(*chdir)));
    push_items(args, "--cap-add", &config.cap);
    let env = config.env.to_pairs();
    assert(pair_views(env@) =~= config.env.pairs());
    push_mounts(args, "--setenv", &env);
    push_items(args, "--unsetenv", &config.unset_env);
    assert(strs(args@) =~= a + tail_args(config@, config.env.pairs(), opt_str(*chdir)));
}

/// The `bwrap` arguments for `config`, with its mounts given as `mounts`
/// and its working directory as `chdir`: flags for `die_with_parent` and
/// `new_session`; an unshare flag for each namespace that `share` does not
/// name; the mounts; `tmpfs`; the working directory; capabilities; the
/// variables to set, in order; the variables to unset.
pub fn sandbox_args_with(config: &Entry, mounts: &Mounts, chdir: &Option<String>) -> (r: Vec<
    String,
>)
    ensures
        strs(r@) == sandbox_args(config@, config.env.pairs(), mounts@, opt_str(*chdir)),
{
    let mut args: Vec<String> = Vec::new();
    push_head(&mut args, config);
    push_all_mounts(&mut args, mounts);
    push_tail(&mut args, config, chdir);
    assert(strs(args@) =~= sandbox_args(config@, config.env.pairs(), mounts@, opt_str(*chdir)));
    args
}

/// Words joined by single spaces.
pub fn join_words_exec(words: &Vec<String>) -> (r: String)
    ensures
        r@ == join_words(strs(words@)),
{
    let mut r = String::new();
    let ghost w = strs(words@);
    let mut i: usize = 0;
    while i < words.len()
        invariant
            i <= words@.len(),
            w == strs(words@),
            r@ == join_words(w.take(i as int)),
        decreases words@.len() - i,
    {
        assert(w.take(i + 1).drop_last() =~= w.take(i as int));
        if i > 0 {
            r.append(" ");
        }
        r.append(words[i].as_str());
        proof {
            if i == 0 {
                assert(w.take(1)[0] == w[0]);
            }
        }
        assert(r@ =~= join_words(w.take(i + 1)));
        i = i + 1;
    }
    assert(w.take(i as int) =~= w);
    r
}

/// Builds the `bwrap` invocation for one resolved entry.
pub struct WrappedCommandBuilder {
    config: Entry,
}

impl WrappedCommandBuilder {
    pub closed spec fn config(&self) -> Entry {
        self.config
    }

    pub fn new(config: Entry) -> (r: WrappedCommandBuilder)
        ensures
            r.config() == config,
    {
        WrappedCommandBuilder { config }
    }

    /// The `bwrap` arguments for the entry; each mount path and the working
    /// directory are expanded for `~` and environment variables, or kept as
    /// they are where that fails.
    pub fn build_args(&self) -> (r: Vec<String>)
        ensures
            exists|m: MountsView, dir: Option<Seq<char>>|
                mounts_fit(self.config()@, m) && dir_fits(self.config()@.chdir, dir)
                    && strs(r@) == sandbox_args(
                    self.config()@,
                    self.config().env.pairs(),
                    m,
                    dir,
                ),
    {
        let c = &self.config;
        let mounts = Mounts {
            bind: expanded_mounts(&c.bind),
            ro_bind: expanded_mounts(&c.ro_bind),
            dev_bind: expanded_mounts(&c.dev_bind),
            bind_try: expanded_mounts(&c.bind_try),
            ro_bind_try: expanded_mounts(&c.ro_bind_try),
            dev_bind_try: expanded_mounts(&c.dev_bind_try),
        };
        let dir = match &c.chdir {
            Some(d) => Some(expanded(d)),
            None => None,
        };
        let r = sandbox_args_with(c, &mounts, &dir);
        assert(mounts_fit(c@, mounts@));
        assert(dir_fits(c@.chdir, opt_str(dir)));
        r
    }

    /// The command line that would run `command` with `command_args` in the
    /// sandbox: `bwrap`, its arguments, the command and its arguments,
    /// separated by single spaces.
    pub fn show(&self, command: &str, command_args: &[String]) -> (r: String)
        ensures
            exists|args: Seq<Seq<char>>|
                r@ == join_words(seq!["bwrap"@] + args + seq![command@] + strs(command_args@))
                    && exists|m: MountsView, dir: Option<Seq<char>>|
                    mounts_fit(self.config()@, m) && dir_fits(self.config()@.chdir, dir)
                        && args == sandbox_args(
                        self.config()@,
                        self.config().env.pairs(),
                        m,
                        dir,
                    ),
    {
        let args = self.build_args();
        let mut parts: Vec<String> = Vec::new();
        parts.push("bwrap".to_owned());
        let mut more = crate::entry::copy_strs(&args);
        parts.append(&mut more);
        parts.push(command.to_owned());
        let mut i: usize = 0;
        let ghost head = strs(parts@);
        while i < command_args.len()
            invariant
                i <= command_args@.len(),
                strs(parts@) == head + strs(command_args@).take(i as int),
            decreases command_args@.len() - i,
        {
            let ghost before = parts@;
            let x = command_args[i].clone();
            parts.push(x);
            assert(parts@ == before.push(x));
            assert(strs(parts@) =~= strs(before).push(command_args@[i as int]@));
            assert(strs(parts@) =~= head + strs(command_args@).take(i + 1));
            i = i + 1;
        }
        assert(strs(command_args@).take(i as int) =~= strs(command_args@));
        assert(strs(parts@) =~= seq!["bwrap"@] + strs(args@) + seq![command@] + strs(
            command_args@,
        ));
        join_words_exec(&parts)
    }
}

} // verus!
