//! Where the configuration file is looked for: a location given on the
//! command line or in the environment, the XDG directories, and the
//! program's own directory.

use vstd::prelude::*;

use crate::text::{chars_of, push_char};

verus! {

/// `name` put under the directory `dir`, with one `/` between them.
pub open spec fn join_spec(dir: Seq<char>, name: Seq<char>) -> Seq<char> {
    if dir.len() == 0 {
        name
    } else if dir.last() == '/' {
        dir + name
    } else {
        dir + seq!['/'] + name
    }
}

/// A path that starts at the root.
pub open spec fn is_absolute(p: Seq<char>) -> bool {
    p.len() > 0 && p[0] == '/'
}

/// The pieces of `s` between its `:` separators, empty ones included.
pub open spec fn split_colons(s: Seq<char>) -> Seq<Seq<char>>
    decreases s.len(),
{
    if s.len() == 0 {
        seq![Seq::empty()]
    } else {
        let parts = split_colons(s.drop_last());
        if s.last() == ':' {
            parts.push(Seq::empty())
        } else {
            parts.update(parts.len() - 1, parts.last().push(s.last()))
        }
    }
}

/// The absolute paths among `ps`, in order.
pub open spec fn absolute_only(ps: Seq<Seq<char>>) -> Seq<Seq<char>>
    decreases ps.len(),
{
    if ps.len() == 0 {
        Seq::empty()
    } else if is_absolute(ps.last()) {
        absolute_only(ps.drop_last()).push(ps.last())
    } else {
        absolute_only(ps.drop_last())
    }
}

/// The value, where there is one and it is an absolute path.
pub open spec fn absolute_opt(v: Option<Seq<char>>) -> Option<Seq<char>> {
    match v {
        Some(p) => if is_absolute(p) {
            Some(p)
        } else {
            None
        },
        None => None,
    }
}

/// The absolute paths of a `:`-separated list.
pub open spec fn absolute_list(v: Option<Seq<char>>) -> Seq<Seq<char>> {
    match v {
        Some(s) => absolute_only(split_colons(s)),
        None => Seq::empty(),
    }
}

/// The texts held by `v`.
pub open spec fn views(v: Seq<String>) -> Seq<Seq<char>> {
    v.map_values(|d: String| d@)
}

pub open spec fn opt_view(v: Option<String>) -> Option<Seq<char>> {
    match v {
        Some(s) => Some(s@),
        None => None,
    }
}

/// The one-element sequence of a present value, or nothing.
pub open spec fn present(v: Option<Seq<char>>) -> Seq<Seq<char>> {
    match v {
        Some(p) => seq![p],
        None => Seq::empty(),
    }
}

/// `p` with `name` joined to it, where there is a `p`.
pub open spec fn joined_opt(v: Option<Seq<char>>, name: Seq<char>) -> Option<Seq<char>> {
    match v {
        Some(p) => Some(join_spec(p, name)),
        None => None,
    }
}

/// Where the configuration file stands below a configuration directory.
pub open spec fn config_subpath() -> Seq<char> {
    join_spec("banger"@, "banger.toml"@)
}

/// `f` returned `b` for a text that reads `p`.
pub open spec fn answered<F: Fn(&str) -> bool>(f: &F, p: Seq<char>, b: bool) -> bool {
    exists|s: &str| s@ == p && f.ensures((s,), b)
}

/// The directory of a candidate was found, and the file in it.
pub open spec fn accepted<D: Fn(&str) -> bool, F: Fn(&str) -> bool>(dir_exists: &D, file_exists: &F, c: (Seq<char>, Seq<char>)) -> bool {
    answered(dir_exists, c.0, true) && answered(file_exists, c.1, true)
}

/// The directory of a candidate was not found, or the file in it was not.
pub open spec fn rejected<D: Fn(&str) -> bool, F: Fn(&str) -> bool>(dir_exists: &D, file_exists: &F, c: (Seq<char>, Seq<char>)) -> bool {
    answered(dir_exists, c.0, false) || answered(file_exists, c.1, false)
}

/// What a search over candidate (directory, file) pairs returns: the file of
/// the first candidate accepted, with all before it rejected; or nothing,
/// with all rejected.
pub open spec fn search_result<D: Fn(&str) -> bool, F: Fn(&str) -> bool>(
    cands: Seq<(Seq<char>, Seq<char>)>,
    dir_exists: &D,
    file_exists: &F,
    r: Option<Seq<char>>,
) -> bool {
    match r {
        Some(p) => exists|i: int|
            0 <= i < cands.len() && #[trigger] cands[i].1 == p && accepted(dir_exists, file_exists, cands[i])
                && forall|j: int| 0 <= j < i ==> rejected(dir_exists, file_exists, #[trigger] cands[j]),
        None => forall|j: int| 0 <= j < cands.len() ==> rejected(dir_exists, file_exists, #[trigger] cands[j]),
    }
}

/// The candidate pair for each directory: the directory and the file below it.
pub open spec fn candidates_in(dirs: Seq<Seq<char>>, sub: Seq<char>) -> Seq<(Seq<char>, Seq<char>)> {
    dirs.map_values(|d: Seq<char>| (d, join_spec(d, sub)))
}

/// `name` put under the directory `dir`.
pub fn join_path(dir: &str, name: &str) -> (r: String)
    ensures
        r@ == join_spec(dir@, name@),
{
    let d = chars_of(dir);
    let mut r = String::new();
    r.append(dir);
    if d.len() != 0 && d[d.len() - 1] != '/' {
        push_char(&mut r, '/');
    }
    r.append(name);
    r
}

fn config_subpath_exec() -> (r: String)
    ensures
        r@ == config_subpath(),
{
    join_path("banger", "banger.toml")
}

/// The file of `name` under `path`, where `dir_exists` finds `path` and
/// `file_exists` that file.
pub fn try_join<D: Fn(&str) -> bool, F: Fn(&str) -> bool>(
    path: &str,
    name: &str,
    dir_exists: &D,
    file_exists: &F,
) -> (r: Option<String>)
    requires
        forall|s: &str| dir_exists.requires((s,)),
        forall|s: &str| file_exists.requires((s,)),
    ensures
        match r {
            Some(p) => p@ == join_spec(path@, name@) && accepted(dir_exists, file_exists, (path@, p@)),
            None => rejected(dir_exists, file_exists, (path@, join_spec(path@, name@))),
        },
{
    if dir_exists(path) {
        let config_path = join_path(path, name);
        if file_exists(config_path.as_str()) {
            return Some(config_path);
        }
    }
    None
}

/// Searches the candidates in order for the first whose directory and file both exist.
pub fn first_found<D: Fn(&str) -> bool, F: Fn(&str) -> bool>(
    dirs: &Vec<String>,
    name: &str,
    dir_exists: &D,
    file_exists: &F,
) -> (r: Option<String>)
    requires
        forall|s: &str| dir_exists.requires((s,)),
        forall|s: &str| file_exists.requires((s,)),
    ensures
        search_result(
            candidates_in(views(dirs@), name@),
            dir_exists,
            file_exists,
            opt_view(r),
        ),
{
    let ghost cands = candidates_in(views(dirs@), name@);
    let mut i: usize = 0;
    while i < dirs.len()
        invariant
            i <= dirs@.len(),
            cands == candidates_in(views(dirs@), name@),
            forall|s: &str| dir_exists.requires((s,)),
            forall|s: &str| file_exists.requires((s,)),
            forall|j: int| 0 <= j < i ==> rejected(dir_exists, file_exists, #[trigger] cands[j]),
        decreases dirs@.len() - i,
    {
        match try_join(dirs[i].as_str(), name, dir_exists, file_exists) {
            Some(p) => {
                assert(cands[i as int].1 == p@);
                return Some(p);
            },
            None => {},
        }
        i = i + 1;
    }
    None
}

/// The parent of a path, as `std::path::Path::parent` gives it.
pub uninterp spec fn path_parent(p: Seq<char>) -> Option<Seq<char>>;

/// Relies on `std::path::Path::parent`: the path without its final
/// component, or nothing for a root or an empty path.
#[verifier::external_body]
fn parent_of(p: &str) -> (r: Option<String>)
    ensures
        opt_view(r) == path_parent(p@),
{
    match std::path::Path::new(p).parent() {
        Some(d) => Some(d.to_string_lossy().into_owned()),
        None => None,
    }
}

/// The directories searched for a configuration under the XDG conventions.
pub struct XdgLookup {
    /// Absolute path of the home directory.
    pub home_dir: Option<String>,
    /// Absolute path of the user configuration directory.
    pub xdg_config_home: Option<String>,
    /// Absolute paths of further configuration directories.
    pub xdg_config_dirs: Vec<String>,
    /// Absolute path of the system configuration directory.
    pub sysconfdir: Option<String>,
}

impl XdgLookup {
    /// The directories to search, in order.
    pub open spec fn dirs(&self) -> Seq<Seq<char>> {
        present(opt_view(self.xdg_config_home)) + present(joined_opt(opt_view(self.home_dir), ".config"@))
            + views(self.xdg_config_dirs@) + present(
            joined_opt(opt_view(self.sysconfdir), "xdg"@),
        ) + seq!["/etc/xdg"@]
    }

    /// The lookup for the values of `HOME`, `XDG_CONFIG_HOME`,
    /// `XDG_CONFIG_DIRS` and `sysconfdir`; values that are not absolute
    /// paths are left out.
    pub open spec fn from_values_spec(
        home: Option<Seq<char>>,
        config_home: Option<Seq<char>>,
        config_dirs: Option<Seq<char>>,
        sysconfdir: Option<Seq<char>>,
        r: XdgLookup,
    ) -> bool {
        &&& opt_view(r.home_dir) == absolute_opt(home)
        &&& opt_view(r.xdg_config_home) == absolute_opt(config_home)
        &&& views(r.xdg_config_dirs@) == absolute_list(config_dirs)
        &&& opt_view(r.sysconfdir) == absolute_opt(sysconfdir)
    }

    /// Reads the four variables through `env_var`.
    pub fn new<E: Fn(&str) -> Option<String>>(env_var: &E) -> (r: Self)
        requires
            forall|s: &str| env_var.requires((s,)),
        ensures
            exists|h: Option<String>, c: Option<String>, d: Option<String>, s: Option<String>|
                env_var.ensures(("HOME",), h) && env_var.ensures(("XDG_CONFIG_HOME",), c)
                    && env_var.ensures(("XDG_CONFIG_DIRS",), d) && env_var.ensures(("sysconfdir",), s)
                    && Self::from_values_spec(opt_view(h), opt_view(c), opt_view(d), opt_view(s), r),
    {
        let h = env_var("HOME");
        let c = env_var("XDG_CONFIG_HOME");
        let d = env_var("XDG_CONFIG_DIRS");
        let s = env_var("sysconfdir");
        let ghost (gh, gc, gd, gs) = (h, c, d, s);
        let r = Self::from_values(h, c, d, s);
        assert(Self::from_values_spec(opt_view(gh), opt_view(gc), opt_view(gd), opt_view(gs), r));
        r
    }

    /// The lookup for the given variable values.
    pub fn from_values(
        home: Option<String>,
        config_home: Option<String>,
        config_dirs: Option<String>,
        sysconfdir: Option<String>,
    ) -> (r: Self)
        ensures
            Self::from_values_spec(opt_view(home), opt_view(config_home), opt_view(config_dirs), opt_view(sysconfdir), r),
    {
        XdgLookup {
            home_dir: Self::parse_absolute(home),
            xdg_config_home: Self::parse_absolute(config_home),
            xdg_config_dirs: Self::parse_absolute_dirlist(config_dirs),
            sysconfdir: Self::parse_absolute(sysconfdir),
        }
    }

    /// The value, where it is an absolute path.
    pub fn parse_absolute(value: Option<String>) -> (r: Option<String>)
        ensures
            opt_view(r) == absolute_opt(opt_view(value)),
    {
        match value {
            Some(path) => {
                let cs = chars_of(path.as_str());
                if cs.len() > 0 && cs[0] == '/' {
                    Some(path)
                } else {
                    None
                }
            },
            None => None,
        }
    }

    /// The absolute paths of a `:`-separated list.
    pub fn parse_absolute_dirlist(value: Option<String>) -> (r: Vec<String>)
        ensures
            views(r@) == absolute_list(opt_view(value)),
    {
        let mut out: Vec<String> = Vec::new();
        match value {
            None => {
                assert(views(out@) =~= Seq::<Seq<char>>::empty());
            },
            Some(list) => {
                let cs = chars_of(list.as_str());
                let ghost all = cs@;
                let mut piece = String::new();
                let mut i: usize = 0;
                assert(all.take(0) =~= Seq::<char>::empty());
                assert(views(out@) =~= Seq::<Seq<char>>::empty());
                while i < cs.len()
                    invariant
                        i <= all.len(),
                        all == cs@,
                        split_colons(all.take(i as int)).len() > 0,
                        piece@ == split_colons(all.take(i as int)).last(),
                        views(out@) == absolute_only(split_colons(all.take(i as int)).drop_last()),
                    decreases all.len() - i,
                {
                    let ghost before = split_colons(all.take(i as int));
                    assert(all.take(i + 1).drop_last() =~= all.take(i as int));
                    if cs[i] == ':' {
                        let done = piece;
                        piece = String::new();
                        let pc = chars_of(done.as_str());
                        let ghost old_out = out@;
                        if pc.len() > 0 && pc[0] == '/' {
                            out.push(done);
                            assert(views(out@) =~= views(old_out).push(done@));
                        }
                        assert(before.push(Seq::empty()).drop_last() =~= before);
                        assert(before =~= before.drop_last().push(before.last()));
                    } else {
                        push_char(&mut piece, cs[i]);
                        assert(before.update(before.len() - 1, before.last().push(cs@[i as int])).drop_last() =~= before.drop_last());
                    }
                    i = i + 1;
                }
                assert(all.take(i as int) =~= all);
                let ghost parts = split_colons(all);
                let pc = chars_of(piece.as_str());
                let ghost old_out = out@;
                if pc.len() > 0 && pc[0] == '/' {
                    out.push(piece);
                    assert(views(out@) =~= views(old_out).push(parts.last()));
                }
                assert(parts =~= parts.drop_last().push(parts.last()));
            },
        }
        out
    }

    /// The candidate directories, in order.
    pub fn dir_list(&self) -> (r: Vec<String>)
        ensures
            views(r@) == self.dirs(),
    {
        proof {
            reveal_strlit("/etc/xdg");
        }
        let mut r: Vec<String> = Vec::new();
        match &self.xdg_config_home {
            Some(p) => r.push(p.clone()),
            None => {},
        }
        assert(views(r@) =~= present(opt_view(self.xdg_config_home)));
        let ghost after_home = views(r@);
        match &self.home_dir {
            Some(p) => r.push(join_path(p.as_str(), ".config")),
            None => {},
        }
        assert(views(r@) =~= after_home + present(joined_opt(opt_view(self.home_dir), ".config"@)));
        let ghost before_dirs = views(r@);
        let mut i: usize = 0;
        while i < self.xdg_config_dirs.len()
            invariant
                i <= self.xdg_config_dirs@.len(),
                views(r@) == before_dirs + views(self.xdg_config_dirs@.take(i as int)),
            decreases self.xdg_config_dirs@.len() - i,
        {
            let d = self.xdg_config_dirs[i].clone();
            assert(d@ == self.xdg_config_dirs@[i as int]@);
            let ghost r0 = r@;
            r.push(d);
            assert(views(r@) =~= views(r0).push(d@));
            assert(views(self.xdg_config_dirs@.take(i + 1)) =~= views(self.xdg_config_dirs@.take(i as int)).push(d@));
            i = i + 1;
            assert(views(r@) =~= before_dirs + views(self.xdg_config_dirs@.take(i as int)));
        }
        assert(self.xdg_config_dirs@.take(i as int) =~= self.xdg_config_dirs@);
        let ghost after_dirs = views(r@);
        match &self.sysconfdir {
            Some(p) => r.push(join_path(p.as_str(), "xdg")),
            None => {},
        }
        assert(views(r@) =~= after_dirs + present(joined_opt(opt_view(self.sysconfdir), "xdg"@)));
        let ghost before_etc = views(r@);
        r.push("/etc/xdg".to_owned());
        assert(views(r@) =~= before_etc + seq!["/etc/xdg"@]);
        r
    }

    /// The configuration file in the first candidate directory that holds one.
    pub fn lookup<D: Fn(&str) -> bool, F: Fn(&str) -> bool>(&self, dir_exists: &D, file_exists: &F) -> (r: Option<String>)
        requires
            forall|s: &str| dir_exists.requires((s,)),
            forall|s: &str| file_exists.requires((s,)),
        ensures
            search_result(candidates_in(self.dirs(), config_subpath()), dir_exists, file_exists, opt_view(r)),
    {
        let dirs = self.dir_list();
        let sub = config_subpath_exec();
        first_found(&dirs, sub.as_str(), dir_exists, file_exists)
    }
}

/// Where the configuration file is looked for.
pub struct ConfigLookup {
    /// Location given on the command line.
    pub cli_config: Option<String>,
    /// Location given by the `BANGER_CONFIG` variable.
    pub env_config: Option<String>,
    /// The XDG directories.
    pub xdg: XdgLookup,
    /// Path of the running program.
    pub binary_path: String,
}

/// The candidate beside the program: its directory and the file in it.
pub open spec fn binary_candidate(binary_path: Seq<char>) -> Seq<(Seq<char>, Seq<char>)> {
    match path_parent(binary_path) {
        Some(d) => seq![(d, join_spec(d, "banger.toml"@))],
        None => Seq::empty(),
    }
}

/// What a lookup returns where an explicit location was given: that
/// location if `file_exists` finds it, nothing otherwise.
pub open spec fn explicit_result<F: Fn(&str) -> bool>(c: Seq<char>, file_exists: &F, r: Option<Seq<char>>) -> bool {
    match r {
        Some(p) => p == c && answered(file_exists, c, true),
        None => answered(file_exists, c, false),
    }
}

impl ConfigLookup {
    /// The (directory, file) candidates searched when no location was given.
    pub open spec fn candidates(&self) -> Seq<(Seq<char>, Seq<char>)> {
        candidates_in(self.xdg.dirs(), config_subpath()) + binary_candidate(self.binary_path@)
    }

    /// The lookup for a location given on the command line, the variables
    /// read through `env_var`, and the program's path.
    pub fn new_custom<E: Fn(&str) -> Option<String>>(
        cli_config: Option<String>,
        env_var: &E,
        binary_path: String,
    ) -> (r: Self)
        requires
            forall|s: &str| env_var.requires((s,)),
        ensures
            r.cli_config == cli_config,
            r.binary_path == binary_path,
            exists|e: Option<String>| env_var.ensures(("BANGER_CONFIG",), e) && r.env_config == e,
            exists|h: Option<String>, c: Option<String>, d: Option<String>, s: Option<String>|
                env_var.ensures(("HOME",), h) && env_var.ensures(("XDG_CONFIG_HOME",), c)
                    && env_var.ensures(("XDG_CONFIG_DIRS",), d) && env_var.ensures(("sysconfdir",), s)
                    && XdgLookup::from_values_spec(opt_view(h), opt_view(c), opt_view(d), opt_view(s), r.xdg),
    {
        let env_config = env_var("BANGER_CONFIG");
        let xdg = XdgLookup::new(env_var);
        ConfigLookup { cli_config: cli_config, env_config: env_config, xdg: xdg, binary_path: binary_path }
    }

    /// Finds the configuration file: the location given on the command line,
    /// else the one given by the variable, each only if it exists; else the
    /// first candidate whose directory and file exist.
    pub fn lookup_custom<D: Fn(&str) -> bool, F: Fn(&str) -> bool>(&self, dir_exists: &D, file_exists: &F) -> (r: Option<String>)
        requires
            forall|s: &str| dir_exists.requires((s,)),
            forall|s: &str| file_exists.requires((s,)),
        ensures
            match self.cli_config {
                Some(c) => explicit_result(c@, file_exists, opt_view(r)),
                None => match self.env_config {
                    Some(c) => explicit_result(c@, file_exists, opt_view(r)),
                    None => search_result(self.candidates(), dir_exists, file_exists, opt_view(r)),
                },
            },
    {
        if let Some(path) = &self.cli_config {
            if file_exists(path.as_str()) {
                return Some(path.clone());
            } else {
                return None;
            }
        }
        if let Some(path) = &self.env_config {
            if file_exists(path.as_str()) {
                return Some(path.clone());
            } else {
                return None;
            }
        }
        let ghost xs = candidates_in(self.xdg.dirs(), config_subpath());
        let ghost all = self.candidates();
        if let Some(path) = self.xdg.lookup(dir_exists, file_exists) {
            proof {
                let i = choose|i: int|
                    0 <= i < xs.len() && #[trigger] xs[i].1 == path@ && accepted(dir_exists, file_exists, xs[i])
                        && forall|j: int| 0 <= j < i ==> rejected(dir_exists, file_exists, #[trigger] xs[j]);
                assert(all[i] == xs[i]);
                assert forall|j: int| 0 <= j < i implies rejected(dir_exists, file_exists, #[trigger] all[j]) by {
                    assert(all[j] == xs[j]);
                }
            }
            return Some(path);
        }
        assert forall|i: int| 0 <= i < xs.len() implies #[trigger] all[i] == xs[i] by {}
        proof {
            reveal_strlit("banger.toml");
        }
        match parent_of(self.binary_path.as_str()) {
            Some(dir) => {
                let found = try_join(dir.as_str(), "banger.toml", dir_exists, file_exists);
                assert(all[xs.len() as int] == (dir@, join_spec(dir@, "banger.toml"@)));
                found
            },
            None => None,
        }
    }
}

} // verus!
