//! The sandbox configuration and how it is resolved for one process.

use vstd::prelude::*;
use crate::kind::{ProcessKind, ProcessKindView};

verus! {

/// Whether an access is sandboxed.
#[derive(Debug, Clone, Copy, PartialEq, Eq, PartialOrd, Ord, Hash, Structural)]
pub enum SandboxOption {
    /// Enable sandboxing.
    Deny,
    /// Disable sandboxing and warn on accesses that would have been denied.
    Warn,
    /// Disable sandboxing.
    Allow,
}

/// The word that names an option in the configuration file.
pub open spec fn option_word(o: SandboxOption) -> Seq<char> {
    match o {
        SandboxOption::Deny => "deny"@,
        SandboxOption::Warn => "warn"@,
        SandboxOption::Allow => "allow"@,
    }
}

/// The option that a word of the configuration file names, if any.
pub open spec fn option_named(word: Seq<char>) -> Option<SandboxOption> {
    if word == "deny"@ {
        Some(SandboxOption::Deny)
    } else if word == "warn"@ {
        Some(SandboxOption::Warn)
    } else if word == "allow"@ {
        Some(SandboxOption::Allow)
    } else {
        None
    }
}

impl SandboxOption {
    /// The word of the option in the configuration file.
    pub fn as_str(&self) -> (res: &'static str)
        ensures
            res@ == option_word(*self),
    {
        match self {
            SandboxOption::Deny => "deny",
            SandboxOption::Warn => "warn",
            SandboxOption::Allow => "allow",
        }
    }

    /// The option named by a word of the configuration file (`deny`,
    /// `warn` or `allow`); `None` for any other word.
    pub fn from_word(word: &str) -> (res: Option<SandboxOption>)
        ensures
            res == option_named(word@),
    {
        if crate::text::str_equal(word, "deny") {
            Some(SandboxOption::Deny)
        } else if crate::text::str_equal(word, "warn") {
            Some(SandboxOption::Warn)
        } else if crate::text::str_equal(word, "allow") {
            Some(SandboxOption::Allow)
        } else {
            None
        }
    }
}

/// The words of the options are distinct, and each word reads back as the
/// option it names: `from_word(o.as_str()) == Some(o)`, and a word read as
/// an option is that option's word.
pub proof fn law_option_words_round_trip(o: SandboxOption, word: Seq<char>)
    ensures
        option_named(option_word(o)) == Some(o),
        option_named(word) == Some(o) ==> word == option_word(o),
{
    reveal_strlit("deny");
    reveal_strlit("warn");
    reveal_strlit("allow");
    assert("deny"@ != "warn"@) by {
        assert("deny"@[0] != "warn"@[0]);
    }
    assert("deny"@ != "allow"@) by {
        assert("deny"@.len() != "allow"@.len());
    }
    assert("warn"@ != "allow"@) by {
        assert("warn"@.len() != "allow"@.len());
    }
}

/// The network part of a configuration.
#[derive(Debug, Clone, Copy, PartialEq, Eq, Structural)]
pub struct SandboxNetworkConfig {
    /// Whether to sandbox all network access.
    pub all: Option<SandboxOption>,
    /// Whether to sandbox localhost network access.
    pub local: Option<SandboxOption>,
    /// Whether to sandbox global/external network access.
    pub external: Option<SandboxOption>,
}

impl Default for SandboxNetworkConfig {
    fn default() -> (res: Self)
        ensures
            res.all is None && res.local is None && res.external is None,
    {
        SandboxNetworkConfig { all: None, local: None, external: None }
    }
}

/// A path to allow or deny access to (the bytes of a Unix path).
#[derive(Debug, Clone)]
pub struct SandboxPathConfig {
    pub path: Vec<u8>,
    /// Allow/disallow access to the path in general.
    pub default_: Option<SandboxOption>,
    /// Read access to files in the path.
    pub read: Option<SandboxOption>,
    /// Write access to files in the path.
    pub write: Option<SandboxOption>,
    /// Execute access to files in the path.
    pub execute: Option<SandboxOption>,
}

/// The mathematical value of a [`SandboxPathConfig`].
pub struct PathConfigView {
    pub path: Seq<u8>,
    pub default_: Option<SandboxOption>,
    pub read: Option<SandboxOption>,
    pub write: Option<SandboxOption>,
    pub execute: Option<SandboxOption>,
}

impl View for SandboxPathConfig {
    type V = PathConfigView;

    open spec fn view(&self) -> PathConfigView {
        PathConfigView {
            path: self.path@,
            default_: self.default_,
            read: self.read,
            write: self.write,
            execute: self.execute,
        }
    }
}

impl Default for SandboxPathConfig {
    fn default() -> (res: Self)
        ensures
            res.path@.len() == 0,
            res.default_ is None && res.read is None && res.write is None && res.execute is None,
    {
        SandboxPathConfig { path: Vec::new(), default_: None, read: None, write: None, execute: None }
    }
}

impl SandboxPathConfig {
    /// A copy with the same contents.
    pub fn duplicate(&self) -> (res: Self)
        ensures
            res@ == self@,
    {
        let path = crate::bytes::copy_range(self.path.as_slice(), 0, self.path.len());
        assert(path@ =~= self.path@);
        SandboxPathConfig {
            path,
            default_: self.default_,
            read: self.read,
            write: self.write,
            execute: self.execute,
        }
    }
}

/// The views of a list of path configurations.
pub open spec fn paths_view(v: Seq<SandboxPathConfig>) -> Seq<PathConfigView> {
    v.map_values(|p: SandboxPathConfig| p@)
}

/// Appends copies of `extra` to `paths`.
fn extend_paths(paths: &mut Vec<SandboxPathConfig>, extra: &Vec<SandboxPathConfig>)
    ensures
        paths_view(final(paths)@) == paths_view(old(paths)@) + paths_view(extra@),
{
    let ghost start = paths_view(paths@);
    let mut i: usize = 0;
    while i < extra.len()
        invariant
            i <= extra@.len(),
            paths_view(paths@) == start + paths_view(extra@).subrange(0, i as int),
        decreases extra@.len() - i,
    {
        let ghost before = paths@;
        let p = extra[i].duplicate();
        paths.push(p);
        assert(paths_view(paths@) =~= paths_view(before).push(extra@[i as int]@));
        i = i + 1;
        assert(paths_view(paths@) =~= start + paths_view(extra@).subrange(0, i as int));
    }
    assert(paths_view(extra@).subrange(0, extra@.len() as int) =~= paths_view(extra@));
}

/// Copies of the given path configurations.
fn copy_paths(paths: &Vec<SandboxPathConfig>) -> (res: Vec<SandboxPathConfig>)
    ensures
        paths_view(res@) == paths_view(paths@),
{
    let mut res: Vec<SandboxPathConfig> = Vec::new();
    assert(paths_view(res@) =~= Seq::<PathConfigView>::empty());
    extend_paths(&mut res, paths);
    assert(paths_view(res@) =~= paths_view(paths@));
    res
}

/// The configuration of one package (or the resolved configuration of a
/// process).
#[derive(Debug, Clone)]
pub struct SandboxPackageConfig {
    /// Whether sandboxing is enabled for this item.
    pub default_: Option<SandboxOption>,
    /// Whether / how to sandbox networking access.
    pub network: SandboxNetworkConfig,
    /// Additional paths to allow access to.
    pub paths: Vec<SandboxPathConfig>,
}

/// The mathematical value of a [`SandboxPackageConfig`].
pub struct PackageConfigView {
    pub default_: Option<SandboxOption>,
    pub network: SandboxNetworkConfig,
    pub paths: Seq<PathConfigView>,
}

impl View for SandboxPackageConfig {
    type V = PackageConfigView;

    open spec fn view(&self) -> PackageConfigView {
        PackageConfigView {
            default_: self.default_,
            network: self.network,
            paths: paths_view(self.paths@),
        }
    }
}

impl SandboxPackageConfig {
    /// A copy with the same contents.
    pub fn duplicate(&self) -> (res: Self)
        ensures
            res@ == self@,
    {
        SandboxPackageConfig {
            default_: self.default_,
            network: self.network,
            paths: copy_paths(&self.paths),
        }
    }
}

/// The view of a list of named package configurations as a map; later
/// entries win over earlier ones with the same name.
pub open spec fn entries_map(s: Seq<(String, SandboxPackageConfig)>) -> Map<
    Seq<char>,
    PackageConfigView,
>
    decreases s.len(),
{
    if s.len() == 0 {
        Map::empty()
    } else {
        entries_map(s.drop_last()).insert(s.last().0@, s.last().1@)
    }
}

/// No name occurs twice.
pub open spec fn distinct_names(s: Seq<(String, SandboxPackageConfig)>) -> bool {
    forall|i: int, j: int| 0 <= i < j < s.len() ==> s[i].0@ != s[j].0@
}

proof fn lemma_entries_map_lookup(s: Seq<(String, SandboxPackageConfig)>, k: Seq<char>)
    requires
        distinct_names(s),
    ensures
        entries_map(s).contains_key(k) <==> exists|i: int| 0 <= i < s.len() && s[i].0@ == k,
        forall|i: int| 0 <= i < s.len() && s[i].0@ == k ==> entries_map(s)[k] == s[i].1@,
    decreases s.len(),
{
    if s.len() > 0 {
        lemma_entries_map_lookup(s.drop_last(), k);
        if entries_map(s).contains_key(k) && s.last().0@ != k {
            let i = choose|i: int| 0 <= i < s.drop_last().len() && s.drop_last()[i].0@ == k;
            assert(s[i].0@ == k);
        }
        if exists|i: int| 0 <= i < s.len() && s[i].0@ == k {
            let i = choose|i: int| 0 <= i < s.len() && s[i].0@ == k;
            if i < s.len() - 1 {
                assert(s.drop_last()[i].0@ == k);
            }
        }
        assert forall|i: int| 0 <= i < s.len() && s[i].0@ == k implies entries_map(s)[k]
            == s[i].1@ by {
            if i < s.len() - 1 {
                assert(s.drop_last()[i] == s[i]);
            }
        }
    }
}

proof fn lemma_entries_map_update(
    s: Seq<(String, SandboxPackageConfig)>,
    i: int,
    e: (String, SandboxPackageConfig),
)
    requires
        distinct_names(s),
        0 <= i < s.len(),
        s[i].0@ == e.0@,
    ensures
        entries_map(s.update(i, e)) == entries_map(s).insert(e.0@, e.1@),
        distinct_names(s.update(i, e)),
    decreases s.len(),
{
    let t = s.update(i, e);
    if i == s.len() - 1 {
        assert(t.drop_last() =~= s.drop_last());
        assert(entries_map(t) =~= entries_map(s).insert(e.0@, e.1@));
    } else {
        assert(t.drop_last() =~= s.drop_last().update(i, e));
        lemma_entries_map_update(s.drop_last(), i, e);
        assert(s.last().0@ != e.0@);
        assert(entries_map(t) =~= entries_map(s).insert(e.0@, e.1@));
    }
}

/// Package configurations by package name.
pub struct PackageConfigs {
    entries: Vec<(String, SandboxPackageConfig)>,
}

impl PackageConfigs {
    #[verifier::type_invariant]
    spec fn names_distinct(self) -> bool {
        distinct_names(self.entries@)
    }

    /// The configurations as a map from package names.
    pub closed spec fn view_map(self) -> Map<Seq<char>, PackageConfigView> {
        entries_map(self.entries@)
    }
}

impl View for PackageConfigs {
    type V = Map<Seq<char>, PackageConfigView>;

    open spec fn view(&self) -> Map<Seq<char>, PackageConfigView> {
        self.view_map()
    }
}

impl PackageConfigs {
    /// No package configured.
    pub fn new() -> (res: Self)
        ensures
            res@ == Map::<Seq<char>, PackageConfigView>::empty(),
    {
        PackageConfigs { entries: Vec::new() }
    }

    /// Index of the entry named `name`.
    fn position(&self, name: &str) -> (res: Option<usize>)
        ensures
            res matches Some(i) ==> i < self.entries@.len() && self.entries@[i as int].0@ == name@,
            res is None ==> forall|i: int|
                0 <= i < self.entries@.len() ==> self.entries@[i].0@ != name@,
    {
        let mut i: usize = 0;
        while i < self.entries.len()
            invariant
                i <= self.entries@.len(),
                forall|j: int| 0 <= j < i ==> self.entries@[j].0@ != name@,
            decreases self.entries@.len() - i,
        {
            if crate::text::str_equal(self.entries[i].0.as_str(), name) {
                return Some(i);
            }
            i = i + 1;
        }
        None
    }

    /// The configuration of package `name`.
    pub fn get(&self, name: &str) -> (res: Option<&SandboxPackageConfig>)
        ensures
            res matches Some(c) ==> self@.contains_key(name@) && c@ == self@[name@],
            res is None ==> !self@.contains_key(name@),
    {
        proof {
            use_type_invariant(self);
            lemma_entries_map_lookup(self.entries@, name@);
        }
        match self.position(name) {
            Some(i) => Some(&self.entries[i].1),
            None => None,
        }
    }

    /// Sets the configuration of package `name`, replacing any earlier one.
    pub fn insert(&mut self, name: String, config: SandboxPackageConfig)
        ensures
            final(self)@ == old(self)@.insert(name@, config@),
    {
        proof {
            use_type_invariant(&*self);
        }
        let pos = self.position(name.as_str());
        let mut entries: Vec<(String, SandboxPackageConfig)> = Vec::new();
        std::mem::swap(&mut entries, &mut self.entries);
        let ghost old_entries = entries@;
        match pos {
            Some(i) => {
                let ghost e = (name, config);
                proof {
                    lemma_entries_map_update(old_entries, i as int, e);
                }
                entries.set(i, (name, config));
                assert(entries@ == old_entries.update(i as int, e));
            },
            None => {
                let ghost e = (name, config);
                entries.push((name, config));
                assert(entries@.drop_last() =~= old_entries);
                assert(distinct_names(entries@));
            },
        }
        self.entries = entries;
    }

    /// Number of configured packages.
    pub fn len(&self) -> (res: usize)
        ensures
            res == self@.len(),
    {
        proof {
            use_type_invariant(self);
            lemma_entries_map_len(self.entries@);
        }
        self.entries.len()
    }
}

proof fn lemma_entries_map_len(s: Seq<(String, SandboxPackageConfig)>)
    requires
        distinct_names(s),
    ensures
        entries_map(s).len() == s.len(),
        entries_map(s).dom().finite(),
    decreases s.len(),
{
    if s.len() > 0 {
        lemma_entries_map_len(s.drop_last());
        lemma_entries_map_lookup(s.drop_last(), s.last().0@);
        assert(!entries_map(s.drop_last()).contains_key(s.last().0@)) by {
            if entries_map(s.drop_last()).contains_key(s.last().0@) {
                let i = choose|i: int| 0 <= i < s.drop_last().len() && s.drop_last()[i].0@ == s.last().0@;
                assert(s[i].0@ == s[s.len() - 1].0@);
            }
        }
    }
}

/// The global sandbox configuration.
pub struct SandboxConfig {
    /// Whether sandboxing is globally enabled.
    pub global: Option<SandboxOption>,
    /// The global network configuration.
    pub network: SandboxNetworkConfig,
    /// Additional paths to globally allow access to.
    pub paths: Vec<SandboxPathConfig>,
    /// Build-script configurations by package name.
    pub build_scripts: PackageConfigs,
    /// Proc-macro configurations by package name.
    pub proc_macros: PackageConfigs,
}

/// The mathematical value of a [`SandboxConfig`].
pub struct SandboxConfigView {
    pub global: Option<SandboxOption>,
    pub network: SandboxNetworkConfig,
    pub paths: Seq<PathConfigView>,
    pub build_scripts: Map<Seq<char>, PackageConfigView>,
    pub proc_macros: Map<Seq<char>, PackageConfigView>,
}

impl View for SandboxConfig {
    type V = SandboxConfigView;

    open spec fn view(&self) -> SandboxConfigView {
        SandboxConfigView {
            global: self.global,
            network: self.network,
            paths: paths_view(self.paths@),
            build_scripts: self.build_scripts@,
            proc_macros: self.proc_macros@,
        }
    }
}

impl Default for SandboxConfig {
    fn default() -> (res: Self)
        ensures
            res.global is None,
            res.network.all is None && res.network.local is None && res.network.external is None,
            res.paths@.len() == 0,
            res.build_scripts@ == Map::<Seq<char>, PackageConfigView>::empty(),
            res.proc_macros@ == Map::<Seq<char>, PackageConfigView>::empty(),
    {
        SandboxConfig {
            global: None,
            network: SandboxNetworkConfig { all: None, local: None, external: None },
            paths: Vec::new(),
            build_scripts: PackageConfigs::new(),
            proc_macros: PackageConfigs::new(),
        }
    }
}

/// `new` when it is set, else `current`.
pub open spec fn override_option(current: Option<SandboxOption>, new: Option<SandboxOption>) -> Option<
    SandboxOption,
> {
    match new {
        Some(o) => Some(o),
        None => current,
    }
}

/// The network settings of `current`, with those that `new` sets replaced.
pub open spec fn override_network(current: SandboxNetworkConfig, new: SandboxNetworkConfig) -> SandboxNetworkConfig {
    SandboxNetworkConfig {
        all: override_option(current.all, new.all),
        local: override_option(current.local, new.local),
        external: override_option(current.external, new.external),
    }
}

/// `current` with the options that `new` sets replaced and the paths of
/// `new` appended.
pub open spec fn overlay(current: PackageConfigView, new: PackageConfigView) -> PackageConfigView {
    PackageConfigView {
        default_: override_option(current.default_, new.default_),
        network: override_network(current.network, new.network),
        paths: current.paths + new.paths,
    }
}

/// The global part of a configuration.
pub open spec fn base_config(c: SandboxConfigView) -> PackageConfigView {
    PackageConfigView { default_: c.global, network: c.network, paths: c.paths }
}

/// `current` overlaid, in order, with the configuration of each crate of
/// `externs` that has one in `m`.
pub open spec fn overlay_externs(
    current: PackageConfigView,
    m: Map<Seq<char>, PackageConfigView>,
    externs: Seq<Seq<char>>,
) -> PackageConfigView
    decreases externs.len(),
{
    if externs.len() == 0 {
        current
    } else {
        let before = overlay_externs(current, m, externs.drop_last());
        if m.contains_key(externs.last()) {
            overlay(before, m[externs.last()])
        } else {
            before
        }
    }
}

/// The configuration that applies to a process of kind `kind`.
pub open spec fn config_for_spec(c: SandboxConfigView, kind: ProcessKindView) -> PackageConfigView {
    match kind {
        ProcessKindView::BuildScript { package, .. } => if c.build_scripts.contains_key(package) {
            overlay(base_config(c), c.build_scripts[package])
        } else {
            base_config(c)
        },
        ProcessKindView::Rustc { externs, .. } => overlay_externs(
            base_config(c),
            c.proc_macros,
            externs,
        ),
        ProcessKindView::Other => base_config(c),
    }
}

fn override_option_exec(current: Option<SandboxOption>, new: Option<SandboxOption>) -> (res: Option<SandboxOption>)
    ensures
        res == override_option(current, new),
{
    match new {
        Some(o) => Some(o),
        None => current,
    }
}

/// Overlays `new` onto `cfg`.
fn apply_overlay(cfg: &mut SandboxPackageConfig, new: &SandboxPackageConfig)
    ensures
        final(cfg)@ == overlay(old(cfg)@, new@),
{
    cfg.default_ = override_option_exec(cfg.default_, new.default_);
    cfg.network.all = override_option_exec(cfg.network.all, new.network.all);
    cfg.network.external = override_option_exec(cfg.network.external, new.network.external);
    cfg.network.local = override_option_exec(cfg.network.local, new.network.local);
    extend_paths(&mut cfg.paths, &new.paths);
}

impl SandboxConfig {
    /// The configuration that applies to a process of kind `kind`: the
    /// global settings, overridden by the build script's package entry, or
    /// by the proc-macro entry of each `--extern` crate in turn for a
    /// `rustc` invocation. Options that an entry sets replace the current
    /// ones; its paths are appended.
    pub fn config_for(&self, kind: &ProcessKind) -> (res: SandboxPackageConfig)
        ensures
            res@ == config_for_spec(self@, kind@),
    {
        let mut cfg = SandboxPackageConfig {
            default_: self.global,
            network: self.network,
            paths: copy_paths(&self.paths),
        };
        match kind {
            ProcessKind::BuildScript { package, .. } => {
                if let Some(new) = self.build_scripts.get(package.as_str()) {
                    apply_overlay(&mut cfg, new);
                }
            },
            ProcessKind::Rustc { externs, .. } => {
                let mut i: usize = 0;
                while i < externs.len()
                    invariant
                        i <= externs@.len(),
                        cfg@ == overlay_externs(
                            base_config(self@),
                            self.proc_macros@,
                            crate::kind::strings_view(externs@).subrange(0, i as int),
                        ),
                    decreases externs@.len() - i,
                {
                    let ghost names = crate::kind::strings_view(externs@);
                    assert(names.subrange(0, i + 1).drop_last() =~= names.subrange(0, i as int));
                    if let Some(new) = self.proc_macros.get(externs[i].as_str()) {
                        apply_overlay(&mut cfg, new);
                    }
                    i = i + 1;
                }
                assert(crate::kind::strings_view(externs@).subrange(0, externs@.len() as int)
                    =~= crate::kind::strings_view(externs@));
            },
            ProcessKind::Other => {},
        }
        cfg
    }
}

proof fn lemma_overlay_externs_prefix(
    current: PackageConfigView,
    m: Map<Seq<char>, PackageConfigView>,
    externs: Seq<Seq<char>>,
)
    ensures
        current.paths.len() <= overlay_externs(current, m, externs).paths.len(),
        overlay_externs(current, m, externs).paths.subrange(0, current.paths.len() as int)
            == current.paths,
    decreases externs.len(),
{
    if externs.len() > 0 {
        lemma_overlay_externs_prefix(current, m, externs.drop_last());
        let before = overlay_externs(current, m, externs.drop_last());
        if m.contains_key(externs.last()) {
            assert((before.paths + m[externs.last()].paths).subrange(0, current.paths.len() as int)
                =~= before.paths.subrange(0, current.paths.len() as int));
        }
    }
}

/// Globally configured paths apply to every process, ahead of any
/// package-specific paths (which are only ever appended).
pub proof fn law_global_paths_first(c: SandboxConfigView, kind: ProcessKindView)
    ensures
        c.paths.len() <= config_for_spec(c, kind).paths.len(),
        config_for_spec(c, kind).paths.subrange(0, c.paths.len() as int) == c.paths,
{
    match kind {
        ProcessKindView::BuildScript { package, .. } => {
            if c.build_scripts.contains_key(package) {
                assert((c.paths + c.build_scripts[package].paths).subrange(0, c.paths.len() as int)
                    =~= c.paths);
            } else {
                assert(c.paths.subrange(0, c.paths.len() as int) =~= c.paths);
            }
        },
        ProcessKindView::Rustc { externs, .. } => {
            lemma_overlay_externs_prefix(base_config(c), c.proc_macros, externs);
        },
        ProcessKindView::Other => {
            assert(c.paths.subrange(0, c.paths.len() as int) =~= c.paths);
        },
    }
}

proof fn lemma_overlay_externs_unconfigured(
    current: PackageConfigView,
    m: Map<Seq<char>, PackageConfigView>,
    externs: Seq<Seq<char>>,
)
    requires
        forall|i: int| 0 <= i < externs.len() ==> !m.contains_key(#[trigger] externs[i]),
    ensures
        overlay_externs(current, m, externs) == current,
    decreases externs.len(),
{
    if externs.len() > 0 {
        assert(!m.contains_key(externs[externs.len() - 1]));
        lemma_overlay_externs_unconfigured(current, m, externs.drop_last());
    }
}

/// A process that no package entry applies to is configured by the global
/// settings alone: processes that are not sandboxed, build scripts of
/// packages without an entry, and `rustc` invocations none of whose
/// `--extern` crates has a proc-macro entry.
pub proof fn law_unconfigured_uses_global(c: SandboxConfigView, kind: ProcessKindView)
    requires
        match kind {
            ProcessKindView::BuildScript { package, .. } => !c.build_scripts.contains_key(package),
            ProcessKindView::Rustc { externs, .. } => forall|i: int|
                0 <= i < externs.len() ==> !c.proc_macros.contains_key(#[trigger] externs[i]),
            ProcessKindView::Other => true,
        },
    ensures
        config_for_spec(c, kind) == base_config(c),
{
    if let ProcessKindView::Rustc { externs, .. } = kind {
        lemma_overlay_externs_unconfigured(base_config(c), c.proc_macros, externs);
    }
}

/// The entry of a build script's package decides each option that it sets;
/// the options it leaves unset keep their global value, and its paths come
/// after the global ones.
pub proof fn law_build_script_entry_overrides(
    c: SandboxConfigView,
    package: Seq<char>,
    target_dir: Seq<u8>,
    manifest_dir: Seq<u8>,
)
    requires
        c.build_scripts.contains_key(package),
    ensures
        ({
            let entry = c.build_scripts[package];
            let res = config_for_spec(
                c,
                ProcessKindView::BuildScript { package, target_dir, manifest_dir },
            );
            &&& entry.default_ is Some ==> res.default_ == entry.default_
            &&& entry.default_ is None ==> res.default_ == c.global
            &&& entry.network.all is Some ==> res.network.all == entry.network.all
            &&& entry.network.all is None ==> res.network.all == c.network.all
            &&& entry.network.local is Some ==> res.network.local == entry.network.local
            &&& entry.network.local is None ==> res.network.local == c.network.local
            &&& entry.network.external is Some ==> res.network.external == entry.network.external
            &&& entry.network.external is None ==> res.network.external == c.network.external
            &&& res.paths == c.paths + entry.paths
        }),
{
}

proof fn lemma_overlay_externs_ignores(
    current: PackageConfigView,
    m: Map<Seq<char>, PackageConfigView>,
    externs: Seq<Seq<char>>,
    name: Seq<char>,
    entry: PackageConfigView,
)
    requires
        !externs.contains(name),
    ensures
        overlay_externs(current, m.insert(name, entry), externs) == overlay_externs(
            current,
            m,
            externs,
        ),
    decreases externs.len(),
{
    if externs.len() > 0 {
        assert(externs.last() == externs[externs.len() - 1]);
        assert(!externs.drop_last().contains(name)) by {
            if externs.drop_last().contains(name) {
                let i = choose|i: int| 0 <= i < externs.drop_last().len() && externs.drop_last()[i] == name;
                assert(externs[i] == name);
            }
        }
        lemma_overlay_externs_ignores(current, m, externs.drop_last(), name, entry);
        assert(externs.last() != name);
    }
}

/// Entries of unrelated packages do not change the configuration of a
/// process: adding a build-script entry for another package, or a
/// proc-macro entry for a crate that a `rustc` invocation does not use,
/// leaves the result as it was.
pub proof fn law_unrelated_entries_ignored(
    c: SandboxConfigView,
    kind: ProcessKindView,
    name: Seq<char>,
    entry: PackageConfigView,
)
    ensures
        (kind matches ProcessKindView::BuildScript { package, .. } && package != name) ==> config_for_spec(
            SandboxConfigView { build_scripts: c.build_scripts.insert(name, entry), ..c },
            kind,
        ) == config_for_spec(c, kind),
        !(kind is BuildScript) ==> config_for_spec(
            SandboxConfigView { build_scripts: c.build_scripts.insert(name, entry), ..c },
            kind,
        ) == config_for_spec(c, kind),
        (kind matches ProcessKindView::Rustc { externs, .. } && !externs.contains(name)) ==> config_for_spec(
            SandboxConfigView { proc_macros: c.proc_macros.insert(name, entry), ..c },
            kind,
        ) == config_for_spec(c, kind),
        !(kind is Rustc) ==> config_for_spec(
            SandboxConfigView { proc_macros: c.proc_macros.insert(name, entry), ..c },
            kind,
        ) == config_for_spec(c, kind),
{
    if let ProcessKindView::Rustc { externs, .. } = kind {
        if !externs.contains(name) {
            lemma_overlay_externs_ignores(base_config(c), c.proc_macros, externs, name, entry);
        }
    }
}

/// For a `rustc` invocation, the crates are applied in the order of their
/// `--extern` arguments: the configuration with one more crate at the end
/// is the previous configuration overlaid with that crate's entry (if it
/// has one), so a later crate's options win over an earlier one's.
pub proof fn law_later_externs_win(
    c: SandboxConfigView,
    package: Seq<char>,
    externs: Seq<Seq<char>>,
    last: Seq<char>,
    target_dir: Seq<u8>,
    manifest_dir: Seq<u8>,
)
    ensures
        ({
            let before = config_for_spec(
                c,
                ProcessKindView::Rustc { package, externs, target_dir, manifest_dir },
            );
            let after = config_for_spec(
                c,
                ProcessKindView::Rustc { package, externs: externs.push(last), target_dir, manifest_dir },
            );
            &&& c.proc_macros.contains_key(last) ==> after == overlay(before, c.proc_macros[last])
            &&& !c.proc_macros.contains_key(last) ==> after == before
        }),
{
    assert(externs.push(last).drop_last() =~= externs);
}

/// Reading back a package entry gives what was last written for that name,
/// and writing one name leaves every other name's entry unchanged.
pub proof fn law_package_configs_read_write(
    m: Map<Seq<char>, PackageConfigView>,
    name: Seq<char>,
    entry: PackageConfigView,
    other: Seq<char>,
)
    requires
        other != name,
    ensures
        m.insert(name, entry).contains_key(name),
        m.insert(name, entry)[name] == entry,
        m.insert(name, entry).contains_key(other) == m.contains_key(other),
        m.contains_key(other) ==> m.insert(name, entry)[other] == m[other],
{
}

} // verus!
