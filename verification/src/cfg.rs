//! The configuration model and the resolver.
//!
//! Two configuration sources exist per invocation: a machine-wide one and a
//! project-local one, either of which may be absent. Each declares SDK
//! installation roots, kits that alias an SDK id, and binary names that
//! either use the system `PATH` or link through a kit. The resolver merges
//! the two into one name-to-directory table, local entries overriding global
//! ones, and collects the set of all declared names.

use vstd::prelude::*;
use vstd::string::StringExecFns;

use crate::table::{
    distinct_keys, distinct_names, entries_map, names_set, names_add, str_views, tbl_get,
    tbl_set,
};

verus! {

/// A named SDK installation root: where on disk its executables live.
pub enum SdkTarget {
    Dir { path: String },
}

/// Associates an SDK id with its installation root.
pub struct KitPath {
    pub id: String,
    pub target: SdkTarget,
}

/// A kit: a named alias for one SDK id.
pub struct KitConfig {
    pub name: String,
    pub id: String,
}

/// What a declared binary name links to: the system `PATH` (no table entry
/// at all), or a kit by name.
pub enum LinkTarget {
    Default,
    Sdk { name: String },
}

/// A declared shim name and its target.
pub struct LinkedBinary {
    pub name: String,
    pub target: LinkTarget,
}

/// The project-local configuration source.
pub struct LocalConfig {
    pub bins: Vec<LinkedBinary>,
    pub kits: Vec<KitConfig>,
    pub paths: Vec<KitPath>,
}

/// The machine-wide configuration source.
pub struct GlobalConfig {
    pub bins: Vec<LinkedBinary>,
    pub kits: Vec<KitConfig>,
    pub paths: Vec<KitPath>,
}

/// Both configuration sources of one invocation; either may be absent.
pub struct Config {
    pub local: Option<LocalConfig>,
    pub global: Option<GlobalConfig>,
}

/// The directory an SDK target points at.
pub open spec fn sdk_dir(t: SdkTarget) -> Seq<char> {
    match t {
        SdkTarget::Dir { path } => path@,
    }
}

/// SDK id to installation directory, later declarations overriding earlier
/// ones with the same id.
pub open spec fn paths_map(paths: Seq<KitPath>) -> Map<Seq<char>, Seq<char>>
    decreases paths.len(),
{
    if paths.len() == 0 {
        Map::empty()
    } else {
        paths_map(paths.drop_last()).insert(paths.last().id@, sdk_dir(paths.last().target))
    }
}

/// Kit name to installation directory: a kit whose SDK id has no declared
/// root is dropped, not an error.
pub open spec fn kits_map(kits: Seq<KitConfig>, pm: Map<Seq<char>, Seq<char>>) -> Map<
    Seq<char>,
    Seq<char>,
>
    decreases kits.len(),
{
    if kits.len() == 0 {
        Map::empty()
    } else {
        let m = kits_map(kits.drop_last(), pm);
        if pm.dom().contains(kits.last().id@) {
            m.insert(kits.last().name@, pm[kits.last().id@])
        } else {
            m
        }
    }
}

/// Whether a declared binary resolves through the given kit map: it must
/// link through a kit, and that kit must itself have resolved.
pub open spec fn bin_resolvable(b: LinkedBinary, km: Map<Seq<char>, Seq<char>>) -> bool {
    match b.target {
        LinkTarget::Default => false,
        LinkTarget::Sdk { name } => km.dom().contains(name@),
    }
}

/// Binary name to installation directory: `Default` entries and entries
/// whose kit did not resolve contribute nothing.
pub open spec fn bins_map(bins: Seq<LinkedBinary>, km: Map<Seq<char>, Seq<char>>) -> Map<
    Seq<char>,
    Seq<char>,
>
    decreases bins.len(),
{
    if bins.len() == 0 {
        Map::empty()
    } else {
        let m = bins_map(bins.drop_last(), km);
        match bins.last().target {
            LinkTarget::Default => m,
            LinkTarget::Sdk { name } => if km.dom().contains(name@) {
                m.insert(bins.last().name@, km[name@])
            } else {
                m
            },
        }
    }
}

/// The full chained resolution of one source: binary name, through its kit
/// alias and the kit's SDK id, to a directory.
pub open spec fn source_map(
    bins: Seq<LinkedBinary>,
    kits: Seq<KitConfig>,
    paths: Seq<KitPath>,
) -> Map<Seq<char>, Seq<char>> {
    bins_map(bins, kits_map(kits, paths_map(paths)))
}

/// All names a source declares, whether or not they resolve.
pub open spec fn source_names(bins: Seq<LinkedBinary>) -> Set<Seq<char>>
    decreases bins.len(),
{
    if bins.len() == 0 {
        Set::empty()
    } else {
        source_names(bins.drop_last()).insert(bins.last().name@)
    }
}

/// The global source's resolution; an absent source resolves to nothing.
pub open spec fn global_map(c: Config) -> Map<Seq<char>, Seq<char>> {
    match c.global {
        None => Map::empty(),
        Some(g) => source_map(g.bins@, g.kits@, g.paths@),
    }
}

/// The local source's resolution; an absent source resolves to nothing.
pub open spec fn local_map(c: Config) -> Map<Seq<char>, Seq<char>> {
    match c.local {
        None => Map::empty(),
        Some(l) => source_map(l.bins@, l.kits@, l.paths@),
    }
}

/// The merged table: local entries override global ones.
pub open spec fn config_map(c: Config) -> Map<Seq<char>, Seq<char>> {
    global_map(c).union_prefer_right(local_map(c))
}

pub open spec fn global_names(c: Config) -> Set<Seq<char>> {
    match c.global {
        None => Set::empty(),
        Some(g) => source_names(g.bins@),
    }
}

pub open spec fn local_names(c: Config) -> Set<Seq<char>> {
    match c.local {
        None => Set::empty(),
        Some(l) => source_names(l.bins@),
    }
}

/// Every name either source declares, resolved or not.
pub open spec fn config_names(c: Config) -> Set<Seq<char>> {
    global_names(c).union(local_names(c))
}

/// The resolver's output: the merged name-to-directory table and the set of
/// all declared shim names.
pub struct ResolvedConfig {
    pub bins: Vec<(String, String)>,
    pub names: Vec<String>,
}

impl ResolvedConfig {
    /// The table has no duplicate keys and the name list no duplicates.
    pub open spec fn wf(self) -> bool {
        distinct_keys(self.bins@) && distinct_names(self.names@)
    }

    /// The table as a map from name to directory.
    pub open spec fn bins_view(self) -> Map<Seq<char>, Seq<char>> {
        entries_map(self.bins@)
    }

    /// The shim names as a set.
    pub open spec fn names_view(self) -> Set<Seq<char>> {
        names_set(self.names@)
    }

    /// The directory configured for a name, if any.
    pub fn lookup<'a>(&'a self, name: &String) -> (r: Option<&'a String>)
        requires
            self.wf(),
        ensures
            match r {
                Some(v) => self.bins_view().dom().contains(name@) && v@ == self.bins_view()[name@],
                None => !self.bins_view().dom().contains(name@),
            },
    {
        tbl_get(&self.bins, name)
    }
}

/// Resolve one source: build the SDK table, the kit table over it, and the
/// binary table over that. Broken links are skipped, not reported.
pub fn resolve_source(
    bins: &Vec<LinkedBinary>,
    kits: &Vec<KitConfig>,
    paths: &Vec<KitPath>,
) -> (r: Vec<(String, String)>)
    ensures
        distinct_keys(r@),
        entries_map(r@) == source_map(bins@, kits@, paths@),
{
    let mut ptbl: Vec<(String, String)> = Vec::new();
    let mut i: usize = 0;
    while i < paths.len()
        invariant
            i <= paths@.len(),
            distinct_keys(ptbl@),
            entries_map(ptbl@) == paths_map(paths@.take(i as int)),
        decreases paths@.len() - i,
    {
        let p = &paths[i];
        let dir: String = match &p.target {
            SdkTarget::Dir { path } => path.clone(),
        };
        tbl_set(&mut ptbl, p.id.clone(), dir);
        proof {
            assert(paths@.take(i + 1).drop_last() =~= paths@.take(i as int));
            assert(paths@.take(i + 1).last() == paths@[i as int]);
        }
        i += 1;
    }
    proof {
        assert(paths@.take(paths@.len() as int) =~= paths@);
    }

    let ghost pm = paths_map(paths@);
    let mut ktbl: Vec<(String, String)> = Vec::new();
    let mut i: usize = 0;
    while i < kits.len()
        invariant
            i <= kits@.len(),
            distinct_keys(ptbl@),
            entries_map(ptbl@) == pm,
            pm == paths_map(paths@),
            distinct_keys(ktbl@),
            entries_map(ktbl@) == kits_map(kits@.take(i as int), pm),
        decreases kits@.len() - i,
    {
        let kit = &kits[i];
        let found = tbl_get(&ptbl, &kit.id);
        match found {
            Some(dir) => {
                let d = dir.clone();
                tbl_set(&mut ktbl, kit.name.clone(), d);
            },
            None => {},
        }
        proof {
            assert(kits@.take(i + 1).drop_last() =~= kits@.take(i as int));
            assert(kits@.take(i + 1).last() == kits@[i as int]);
        }
        i += 1;
    }
    proof {
        assert(kits@.take(kits@.len() as int) =~= kits@);
    }

    let ghost km = kits_map(kits@, pm);
    let mut btbl: Vec<(String, String)> = Vec::new();
    let mut i: usize = 0;
    while i < bins.len()
        invariant
            i <= bins@.len(),
            distinct_keys(ktbl@),
            entries_map(ktbl@) == km,
            km == kits_map(kits@, paths_map(paths@)),
            distinct_keys(btbl@),
            entries_map(btbl@) == bins_map(bins@.take(i as int), km),
        decreases bins@.len() - i,
    {
        let b = &bins[i];
        match &b.target {
            LinkTarget::Default => {},
            LinkTarget::Sdk { name } => {
                let found = tbl_get(&ktbl, name);
                match found {
                    Some(dir) => {
                        let d = dir.clone();
                        tbl_set(&mut btbl, b.name.clone(), d);
                    },
                    None => {},
                }
            },
        }
        proof {
            assert(bins@.take(i + 1).drop_last() =~= bins@.take(i as int));
            assert(bins@.take(i + 1).last() == bins@[i as int]);
        }
        i += 1;
    }
    proof {
        assert(bins@.take(bins@.len() as int) =~= bins@);
    }
    btbl
}

/// Append every name a source declares to `acc`, without duplicates.
fn collect_names(bins: &Vec<LinkedBinary>, acc: &mut Vec<String>)
    requires
        distinct_names(old(acc)@),
    ensures
        distinct_names(final(acc)@),
        names_set(final(acc)@) == names_set(old(acc)@).union(source_names(bins@)),
{
    let mut i: usize = 0;
    while i < bins.len()
        invariant
            i <= bins@.len(),
            distinct_names(acc@),
            names_set(acc@) == names_set(old(acc)@).union(source_names(bins@.take(i as int))),
        decreases bins@.len() - i,
    {
        names_add(acc, bins[i].name.clone());
        proof {
            assert(bins@.take(i + 1).drop_last() =~= bins@.take(i as int));
            assert(bins@.take(i + 1).last() == bins@[i as int]);
            assert(names_set(acc@) =~= names_set(old(acc)@).union(
                source_names(bins@.take(i + 1)),
            ));
        }
        i += 1;
    }
    proof {
        assert(bins@.take(bins@.len() as int) =~= bins@);
    }
}

impl Config {
    /// Merge the two sources into one table and one shim-name set: local
    /// resolution entries override global ones, the names are the union of
    /// what either source declares, and an absent source counts as an empty
    /// one.
    pub fn resolve(self) -> (r: ResolvedConfig)
        ensures
            r.wf(),
            r.bins_view() == config_map(self),
            r.names_view() == config_names(self),
    {
        let mut bins: Vec<(String, String)> = Vec::new();
        let mut names: Vec<String> = Vec::new();

        match &self.global {
            None => {
                proof {
                    assert(entries_map(bins@) =~= global_map(self));
                    assert(names_set(names@) =~= global_names(self));
                }
            },
            Some(g) => {
                bins = resolve_source(&g.bins, &g.kits, &g.paths);
                collect_names(&g.bins, &mut names);
                proof {
                    assert(names_set(names@) =~= global_names(self));
                }
            },
        }

        match &self.local {
            None => {
                proof {
                    assert(entries_map(bins@) =~= config_map(self));
                    assert(names_set(names@) =~= config_names(self));
                }
            },
            Some(l) => {
                let ltbl = resolve_source(&l.bins, &l.kits, &l.paths);
                let mut i: usize = 0;
                while i < ltbl.len()
                    invariant
                        i <= ltbl@.len(),
                        distinct_keys(ltbl@),
                        entries_map(ltbl@) == local_map(self),
                        distinct_keys(bins@),
                        entries_map(bins@) == global_map(self).union_prefer_right(
                            entries_map(ltbl@.take(i as int)),
                        ),
                    decreases ltbl@.len() - i,
                {
                    let e = &ltbl[i];
                    tbl_set(&mut bins, e.0.clone(), e.1.clone());
                    proof {
                        assert(ltbl@.take(i + 1).drop_last() =~= ltbl@.take(i as int));
                        assert(ltbl@.take(i + 1).last() == ltbl@[i as int]);
                        assert(global_map(self).union_prefer_right(
                            entries_map(ltbl@.take(i as int)).insert(ltbl@[i as int].0@, ltbl@[i as int].1@),
                        ) =~= global_map(self).union_prefer_right(
                            entries_map(ltbl@.take(i as int)),
                        ).insert(ltbl@[i as int].0@, ltbl@[i as int].1@));
                    }
                    i += 1;
                }
                proof {
                    assert(ltbl@.take(ltbl@.len() as int) =~= ltbl@);
                }
                collect_names(&l.bins, &mut names);
                proof {
                    assert(names_set(names@) =~= config_names(self));
                }
            },
        }

        ResolvedConfig { bins, names }
    }
}

/// Wrap the two parsed configuration sources, either of which may be
/// absent, into the configuration of one invocation.
pub fn get_config(parsed_local: Option<LocalConfig>, parsed_global: Option<GlobalConfig>) -> (r:
    Config)
    ensures
        r.local == parsed_local,
        r.global == parsed_global,
{
    Config { local: parsed_local, global: parsed_global }
}

/// Resolution is deterministic: identical inputs resolve to an identical
/// table and an identical shim-name set.
pub proof fn lemma_resolve_deterministic(c1: Config, c2: Config)
    requires
        c1 == c2,
    ensures
        config_map(c1) == config_map(c2),
        config_names(c1) == config_names(c2),
{
}

/// Local overrides global: a name that resolves in both sources takes the
/// local source's directory in the merged table.
pub proof fn lemma_local_overrides_global(c: Config, n: Seq<char>)
    requires
        global_map(c).dom().contains(n),
        local_map(c).dom().contains(n),
    ensures
        config_map(c).dom().contains(n),
        config_map(c)[n] == local_map(c)[n],
{
}

/// The shim names are the union of the names both sources declare,
/// regardless of whether they resolved.
pub proof fn lemma_shim_names_union(c: Config)
    ensures
        config_names(c) == global_names(c).union(local_names(c)),
{
}

/// A name is among a source's declared names exactly when some declared
/// binary carries it.
pub proof fn lemma_source_names_member(bins: Seq<LinkedBinary>, n: Seq<char>)
    ensures
        source_names(bins).contains(n) <==> (exists|i: int|
            0 <= i < bins.len() && #[trigger] bins[i].name@ == n),
    decreases bins.len(),
{
    if bins.len() == 0 {
    } else {
        let prefix = bins.drop_last();
        lemma_source_names_member(prefix, n);
        if bins.last().name@ == n {
            assert(bins[bins.len() - 1].name@ == n);
        } else {
            if source_names(bins).contains(n) {
                let i = choose|i: int| 0 <= i < prefix.len() && #[trigger] prefix[i].name@ == n;
                assert(bins[i].name@ == n);
            }
            if exists|i: int| 0 <= i < bins.len() && #[trigger] bins[i].name@ == n {
                let i = choose|i: int| 0 <= i < bins.len() && #[trigger] bins[i].name@ == n;
                assert(i < bins.len() - 1);
                assert(prefix[i].name@ == n);
            }
        }
    }
}

/// A name is among the shim names exactly when one of the two sources
/// declares a binary carrying it, resolved or not.
pub proof fn lemma_config_names_member(c: Config, n: Seq<char>)
    ensures
        config_names(c).contains(n) <==> ((match c.global {
            None => false,
            Some(g) => exists|i: int| 0 <= i < g.bins@.len() && #[trigger] g.bins@[i].name@ == n,
        } || match c.local {
            None => false,
            Some(l) => exists|i: int| 0 <= i < l.bins@.len() && #[trigger] l.bins@[i].name@ == n,
        })),
{
    match c.global {
        None => {},
        Some(g) => {
            lemma_source_names_member(g.bins@, n);
        },
    }
    match c.local {
        None => {},
        Some(l) => {
            lemma_source_names_member(l.bins@, n);
        },
    }
}

/// A name lands in a source's table exactly when some declared binary
/// carries it and links through a kit that resolved.
pub proof fn lemma_bins_map_member(bins: Seq<LinkedBinary>, km: Map<Seq<char>, Seq<char>>, n: Seq<char>)
    ensures
        bins_map(bins, km).dom().contains(n) <==> (exists|i: int|
            0 <= i < bins.len() && #[trigger] bins[i].name@ == n && bin_resolvable(bins[i], km)),
    decreases bins.len(),
{
    if bins.len() == 0 {
    } else {
        let prefix = bins.drop_last();
        lemma_bins_map_member(prefix, km, n);
        let last = bins.last();
        if last.name@ == n && bin_resolvable(last, km) {
            assert(bins[bins.len() - 1].name@ == n && bin_resolvable(bins[bins.len() - 1], km));
            assert(bins_map(bins, km).dom().contains(n));
        } else {
            assert(bins_map(bins, km).dom().contains(n) <==> bins_map(prefix, km).dom().contains(
                n,
            ));
            if bins_map(bins, km).dom().contains(n) {
                let i = choose|i: int|
                    0 <= i < prefix.len() && #[trigger] prefix[i].name@ == n && bin_resolvable(
                        prefix[i],
                        km,
                    );
                assert(bins[i].name@ == n && bin_resolvable(bins[i], km));
            }
            if exists|i: int|
                0 <= i < bins.len() && #[trigger] bins[i].name@ == n && bin_resolvable(
                    bins[i],
                    km,
                ) {
                let i = choose|i: int|
                    0 <= i < bins.len() && #[trigger] bins[i].name@ == n && bin_resolvable(
                        bins[i],
                        km,
                    );
                assert(i < bins.len() - 1);
                assert(prefix[i].name@ == n && bin_resolvable(prefix[i], km));
            }
        }
    }
}

/// The names of the binaries a GraalVM installation provides.
pub open spec fn graal_names() -> Seq<Seq<char>> {
    seq!["native-image"@, "gu"@, "rebuild-images"@, "polyglot"@, "lli"@]
}

/// The names of the binaries a Node installation provides.
pub open spec fn node_names() -> Seq<Seq<char>> {
    seq!["js"@, "node"@, "npx"@, "npm"@]
}

/// The names of the binaries a JDK installation provides.
pub open spec fn jdk_names() -> Seq<Seq<char>> {
    seq![
        "jar"@,
        "jarsigner"@,
        "java"@,
        "javac"@,
        "javadoc"@,
        "javap"@,
        "jcmd"@,
        "jconsole"@,
        "jdb"@,
        "jdeprscan"@,
        "jdeps"@,
        "jfr"@,
        "jhsdb"@,
        "jimage"@,
        "jinfo"@,
        "jjs"@,
        "jlink"@,
        "jmap"@,
        "jmod"@,
        "jps"@,
        "jrunscript"@,
        "jshell"@,
        "jstack"@,
        "jstat"@,
        "jstatd"@,
        "jvisualvm"@,
        "keytool"@,
        "pack200"@,
        "rmic"@,
        "rmid"@,
        "rmiregistry"@,
        "serialver"@,
        "unpack200"@,
    ]
}

/// The binary carries name `n` and links through kit `k`.
pub open spec fn bin_links_to(b: LinkedBinary, n: Seq<char>, k: Seq<char>) -> bool {
    b.name@ == n && (b.target matches LinkTarget::Sdk { name } && name@ == k)
}

/// Append one linked binary per name, each linking through the same kit.
fn push_linked(dst: &mut Vec<LinkedBinary>, names: &Vec<String>, kit: &String)
    ensures
        final(dst)@.len() == old(dst)@.len() + names@.len(),
        forall|m: int| 0 <= m < old(dst)@.len() ==> #[trigger] final(dst)@[m] == old(dst)@[m],
        forall|m: int|
            old(dst)@.len() <= m < final(dst)@.len() ==> bin_links_to(
                #[trigger] final(dst)@[m],
                names@[m - old(dst)@.len()]@,
                kit@,
            ),
{
    let mut i: usize = 0;
    while i < names.len()
        invariant
            i <= names@.len(),
            dst@.len() == old(dst)@.len() + i,
            forall|m: int| 0 <= m < old(dst)@.len() ==> #[trigger] dst@[m] == old(dst)@[m],
            forall|m: int|
                old(dst)@.len() <= m < dst@.len() ==> bin_links_to(
                    #[trigger] dst@[m],
                    names@[m - old(dst)@.len()]@,
                    kit@,
                ),
        decreases names@.len() - i,
    {
        dst.push(
            LinkedBinary { name: names[i].clone(), target: LinkTarget::Sdk { name: kit.clone() } },
        );
        i += 1;
    }
}

impl LocalConfig {
    /// The binaries a GraalVM installation provides.
    pub fn graal_bins() -> (r: Vec<String>)
        ensures
            str_views(r@) == graal_names(),
    {
        let mut out: Vec<String> = Vec::new();
        out.push(String::from_str("native-image"));
        out.push(String::from_str("gu"));
        out.push(String::from_str("rebuild-images"));
        out.push(String::from_str("polyglot"));
        out.push(String::from_str("lli"));
        proof {
            assert(str_views(out@) =~~= graal_names());
        }
        out
    }

    /// The binaries a Node installation provides.
    pub fn node_bins() -> (r: Vec<String>)
        ensures
            str_views(r@) == node_names(),
    {
        let mut out: Vec<String> = Vec::new();
        out.push(String::from_str("js"));
        out.push(String::from_str("node"));
        out.push(String::from_str("npx"));
        out.push(String::from_str("npm"));
        proof {
            assert(str_views(out@) =~~= node_names());
        }
        out
    }

    /// The binaries a JDK installation provides.
    pub fn jdk_bins() -> (r: Vec<String>)
        ensures
            str_views(r@) == jdk_names(),
    {
        let mut out: Vec<String> = Vec::new();
        out.push(String::from_str("jar"));
        out.push(String::from_str("jarsigner"));
        out.push(String::from_str("java"));
        out.push(String::from_str("javac"));
        out.push(String::from_str("javadoc"));
        out.push(String::from_str("javap"));
        out.push(String::from_str("jcmd"));
        out.push(String::from_str("jconsole"));
        out.push(String::from_str("jdb"));
        out.push(String::from_str("jdeprscan"));
        out.push(String::from_str("jdeps"));
        out.push(String::from_str("jfr"));
        out.push(String::from_str("jhsdb"));
        out.push(String::from_str("jimage"));
        out.push(String::from_str("jinfo"));
        out.push(String::from_str("jjs"));
        out.push(String::from_str("jlink"));
        out.push(String::from_str("jmap"));
        out.push(String::from_str("jmod"));
        out.push(String::from_str("jps"));
        out.push(String::from_str("jrunscript"));
        out.push(String::from_str("jshell"));
        out.push(String::from_str("jstack"));
        out.push(String::from_str("jstat"));
        out.push(String::from_str("jstatd"));
        out.push(String::from_str("jvisualvm"));
        out.push(String::from_str("keytool"));
        out.push(String::from_str("pack200"));
        out.push(String::from_str("rmic"));
        out.push(String::from_str("rmid"));
        out.push(String::from_str("rmiregistry"));
        out.push(String::from_str("serialver"));
        out.push(String::from_str("unpack200"));
        proof {
            assert(str_views(out@) =~~= jdk_names());
        }
        out
    }

    /// The example project-local configuration: empty, as a starting
    /// point.
    pub fn example() -> (r: LocalConfig)
        ensures
            r.bins@.len() == 0,
            r.kits@.len() == 0,
            r.paths@.len() == 0,
    {
        LocalConfig { bins: Vec::new(), kits: Vec::new(), paths: Vec::new() }
    }
}

impl GlobalConfig {
    /// The built-in example configuration: the GraalVM, JDK and Node
    /// binaries linking through kits, of which the two JDK kits alias one
    /// SDK root, while the `node` kit is deliberately left undeclared to
    /// show a name that stays on the system `PATH`.
    pub fn example() -> (r: GlobalConfig)
        ensures
            r.bins@.len() == graal_names().len() + jdk_names().len() + node_names().len(),
            forall|i: int|
                0 <= i < graal_names().len() ==> bin_links_to(
                    #[trigger] r.bins@[i],
                    graal_names()[i],
                    "jdk-graal"@,
                ),
            forall|i: int|
                0 <= i < jdk_names().len() ==> bin_links_to(
                    #[trigger] r.bins@[graal_names().len() + i],
                    jdk_names()[i],
                    "jdk"@,
                ),
            forall|i: int|
                0 <= i < node_names().len() ==> bin_links_to(
                    #[trigger] r.bins@[graal_names().len() + jdk_names().len() + i],
                    node_names()[i],
                    "node"@,
                ),
            r.kits@.len() == 2,
            r.kits@[0].name@ == "jdk"@ && r.kits@[0].id@ == "graalvm"@,
            r.kits@[1].name@ == "jdk-graal"@ && r.kits@[1].id@ == "graalvm"@,
            r.paths@.len() == 1,
            r.paths@[0].id@ == "graalvm"@,
            sdk_dir(r.paths@[0].target)
                == "/Library/Java/JavaVirtualMachines/graalvm-ce-java11-20.2.0/Contents/Home/bin/"@,
    {
        let graal = LocalConfig::graal_bins();
        let jdk = LocalConfig::jdk_bins();
        let node = LocalConfig::node_bins();
        let mut bins: Vec<LinkedBinary> = Vec::new();
        push_linked(&mut bins, &graal, &String::from_str("jdk-graal"));
        let ghost b1 = bins@;
        push_linked(&mut bins, &jdk, &String::from_str("jdk"));
        let ghost b2 = bins@;
        push_linked(&mut bins, &node, &String::from_str("node"));
        proof {
            let gl = graal_names().len() as int;
            let jl = jdk_names().len() as int;
            let nl = node_names().len() as int;
            assert(graal@.len() == gl && jdk@.len() == jl && node@.len() == nl);
            assert forall|i: int| 0 <= i < gl implies bin_links_to(
                #[trigger] bins@[i],
                graal_names()[i],
                "jdk-graal"@,
            ) by {
                assert(bins@[i] == b2[i]);
                assert(b2[i] == b1[i]);
                assert(str_views(graal@)[i] == graal@[i]@);
            }
            assert forall|i: int| 0 <= i < jl implies bin_links_to(
                #[trigger] bins@[gl + i],
                jdk_names()[i],
                "jdk"@,
            ) by {
                assert(bins@[gl + i] == b2[gl + i]);
                assert(str_views(jdk@)[i] == jdk@[i]@);
            }
            assert forall|i: int| 0 <= i < nl implies bin_links_to(
                #[trigger] bins@[gl + jl + i],
                node_names()[i],
                "node"@,
            ) by {
                assert(str_views(node@)[i] == node@[i]@);
            }
        }
        let mut kits: Vec<KitConfig> = Vec::new();
        kits.push(KitConfig { name: String::from_str("jdk"), id: String::from_str("graalvm") });
        kits.push(
            KitConfig { name: String::from_str("jdk-graal"), id: String::from_str("graalvm") },
        );
        let mut paths: Vec<KitPath> = Vec::new();
        paths.push(
            KitPath {
                id: String::from_str("graalvm"),
                target: SdkTarget::Dir {
                    path: String::from_str(
                        "/Library/Java/JavaVirtualMachines/graalvm-ce-java11-20.2.0/Contents/Home/bin/",
                    ),
                },
            },
        );
        GlobalConfig { bins, kits, paths }
    }
}

/// No binary of the list that carries the name links through a kit that
/// resolved.
pub open spec fn name_unresolvable(
    bins: Seq<LinkedBinary>,
    km: Map<Seq<char>, Seq<char>>,
    n: Seq<char>,
) -> bool {
    forall|i: int|
        0 <= i < bins.len() && #[trigger] bins[i].name@ == n ==> !bin_resolvable(bins[i], km)
}

/// Broken-link tolerance: a name that both sources declare only through
/// missing kits or missing SDK roots (or as a plain `PATH` binary) is among
/// the shim names but absent from the merged table.
pub proof fn lemma_broken_link_tolerance(c: Config, n: Seq<char>)
    requires
        config_names(c).contains(n),
        match c.global {
            None => true,
            Some(g) => name_unresolvable(g.bins@, kits_map(g.kits@, paths_map(g.paths@)), n),
        },
        match c.local {
            None => true,
            Some(l) => name_unresolvable(l.bins@, kits_map(l.kits@, paths_map(l.paths@)), n),
        },
    ensures
        config_names(c).contains(n),
        !config_map(c).dom().contains(n),
{
    match c.global {
        None => {},
        Some(g) => {
            lemma_bins_map_member(g.bins@, kits_map(g.kits@, paths_map(g.paths@)), n);
        },
    }
    match c.local {
        None => {},
        Some(l) => {
            lemma_bins_map_member(l.bins@, kits_map(l.kits@, paths_map(l.paths@)), n);
        },
    }
    assert(!global_map(c).dom().contains(n));
    assert(!local_map(c).dom().contains(n));
}

} // verus!
