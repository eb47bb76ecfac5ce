//! Resolution of external packages: reading their coordinates, relocating
//! their targets into the package cache, and flattening the package tree.
use vstd::prelude::*;
use vstd::string::StringExecFns;
use crate::config::BuildConfig;
use crate::order::{
    lemma_text_lt_irreflexive, lemma_text_lt_total, lemma_text_lt_transitive, text_less, text_lt,
};
use crate::target::TargetConfig;
use crate::text::{
    after_final, after_last, fields, remove_char, replace_text, replaced, same_text, split_fields,
    without,
};

verus! {

/// Why a package could not be resolved.
#[derive(Debug)]
pub enum PackageError {
    /// A coordinate is not two white-space-separated fields.
    BadCoordinate { coordinate: String },
    /// A coordinate's repository holds no `/` before the package name.
    NoPackageName { repo: String },
}

/// A package coordinate, read: the repository, the branch, and the
/// package name, which is the repository's final `/`-separated segment.
#[derive(Debug)]
pub struct Coordinate {
    pub repo: String,
    pub branch: String,
    pub name: String,
}

/// A resolved external package.
#[derive(Debug)]
pub struct Package {
    pub name: String,
    pub repo: String,
    pub branch: String,
    pub build_config: BuildConfig,
    pub target_configs: Vec<TargetConfig>,
    pub sub_packages: Vec<Package>,
}

/// Every package of `ps` carries compiler `c`.
pub open spec fn all_compiler(ps: Seq<Package>, c: Seq<char>) -> bool {
    forall|i: int| 0 <= i < ps.len() ==> (#[trigger] ps[i]).build_config.compiler@ == c
}

/// What coordinate `s` reads as: the repository (its first field without
/// commas), the branch (its second field), and the package name (the
/// repository's final `/`-separated segment).
pub open spec fn coordinate_of(s: Seq<char>) -> Option<(Seq<char>, Seq<char>, Seq<char>)> {
    let f = fields(s);
    if f.len() != 2 {
        None
    } else {
        let repo = without(f[0], ',');
        match after_last(repo, '/') {
            None => None,
            Some(name) => Some((repo, f[1], name)),
        }
    }
}

/// Reads a `"<owner>/<name>[,] <branch>"` coordinate. The package name is
/// the repository's part after its last `/`.
pub fn parse_coordinate(coordinate: &str) -> (r: Result<Coordinate, PackageError>)
    ensures
        r is Ok <==> coordinate_of(coordinate@) is Some,
        r matches Ok(c) ==> (c.repo@, c.branch@, c.name@) == coordinate_of(coordinate@)->0,
        r matches Err(e) ==> (e is BadCoordinate <==> fields(coordinate@).len() != 2),
{
    let deets = split_fields(coordinate);
    assert(deets@.map_values(|t: String| t@).len() == deets@.len());
    if deets.len() != 2 {
        return Err(PackageError::BadCoordinate { coordinate: coordinate.to_string() });
    }
    assert(deets@.map_values(|t: String| t@)[0] == deets@[0]@);
    assert(deets@.map_values(|t: String| t@)[1] == deets@[1]@);
    let repo = remove_char(deets[0].as_str(), ',');
    let branch = deets[1].clone();
    match after_final(repo.as_str(), '/') {
        None => Err(PackageError::NoPackageName { repo }),
        Some(name) => Ok(Coordinate { repo, branch, name }),
    }
}

/// The cache directory of a package.
pub open spec fn package_dir(name: Seq<char>) -> Seq<char> {
    "./ruxos_bld/packages/"@ + name + "/"@
}

/// The cache directory of the package named `name`.
pub fn package_source_dir(name: &str) -> (r: String)
    ensures
        r@ == package_dir(name@),
{
    "./ruxos_bld/packages/".to_string().concat(name).concat("/")
}

/// The path of file `file_name` in directory `dir`, with doubled
/// separators collapsed.
pub fn package_config_path(dir: &str, file_name: &str) -> (r: String)
    ensures
        r@ == replaced(dir@ + "/"@ + file_name@, "//"@, "/"@),
{
    let joined = dir.to_string().concat("/").concat(file_name);
    proof {
        reveal_strlit("//");
    }
    replace_text(joined.as_str(), "//", "/")
}

/// `path` taken relative to directory `dir`: joined with a `/`, with
/// backslashes turned into slashes, then `/./` and `//` collapsed.
pub open spec fn relocated_path(dir: Seq<char>, path: Seq<char>) -> Seq<char> {
    replaced(
        replaced(replaced(dir + "/"@ + path, "\\"@, "/"@), "/./"@, "/"@),
        "//"@,
        "/"@,
    )
}

/// `path` taken relative to directory `dir`.
pub fn relocate_path(dir: &str, path: &str) -> (r: String)
    ensures
        r@ == relocated_path(dir@, path@),
{
    let joined = dir.to_string().concat("/").concat(path);
    proof {
        reveal_strlit("\\");
        reveal_strlit("/./");
        reveal_strlit("//");
    }
    let a = replace_text(joined.as_str(), "\\", "/");
    let b = replace_text(a.as_str(), "/./", "/");
    replace_text(b.as_str(), "//", "/")
}

/// A target kind whose artifact a dependent can link: a shared library, a
/// static library or an object archive.
pub open spec fn is_artifact(t: TargetConfig) -> bool {
    t.typ@ == "dll"@ || t.typ@ == "static"@ || t.typ@ == "object"@
}

/// The targets of `ts` whose kind is an artifact kind, in order.
pub open spec fn artifacts(ts: Seq<TargetConfig>) -> Seq<TargetConfig>
    decreases ts.len(),
{
    if ts.len() == 0 {
        ts
    } else if is_artifact(ts.last()) {
        artifacts(ts.drop_last()).push(ts.last())
    } else {
        artifacts(ts.drop_last())
    }
}

/// `out` is target `t` with its source and include directories taken
/// relative to `dir`.
pub open spec fn relocated(out: TargetConfig, t: TargetConfig, dir: Seq<char>) -> bool {
    &&& out.name == t.name
    &&& out.src@ == relocated_path(dir, t.src@)
    &&& out.src_excluded == t.src_excluded
    &&& out.include_dir@ == relocated_path(dir, t.include_dir@)
    &&& out.typ == t.typ
    &&& out.cflags == t.cflags
    &&& out.archive == t.archive
    &&& out.ldflags == t.ldflags
    &&& out.deps == t.deps
}

/// Keeps the targets of a fetched package that produce a linkable artifact,
/// dropping executables, and takes their directories relative to the
/// package's cache directory `dir`.
pub fn filter_targets(dir: &str, targets: Vec<TargetConfig>) -> (r: Vec<TargetConfig>)
    ensures
        r@.len() == artifacts(targets@).len(),
        forall|k: int| 0 <= k < r@.len() ==> relocated(#[trigger] r@[k], artifacts(targets@)[k], dir@),
{
    let ghost orig = targets@;
    let mut rest = targets;
    let mut out: Vec<TargetConfig> = Vec::new();
    let ghost mut i: int = 0;
    assert(orig.subrange(0, 0) =~= Seq::<TargetConfig>::empty());
    assert(orig.subrange(0, orig.len() as int) =~= orig);
    while rest.len() > 0
        invariant
            0 <= i <= orig.len(),
            rest@ == orig.subrange(i, orig.len() as int),
            out@.len() == artifacts(orig.subrange(0, i)).len(),
            forall|k: int|
                0 <= k < out@.len() ==> relocated(#[trigger] out@[k], artifacts(orig.subrange(0, i))[k], dir@),
        decreases rest.len(),
    {
        let mut t = rest.remove(0);
        proof {
            assert(orig.subrange(0, i + 1).drop_last() =~= orig.subrange(0, i));
            assert(orig.subrange(0, i + 1).last() == orig[i]);
            assert(t == orig[i]);
        }
        let typ = t.typ.as_str();
        if same_text(typ, "dll") || same_text(typ, "static") || same_text(typ, "object") {
            let ghost t0 = t;
            let src = relocate_path(dir, t.src.as_str());
            let inc = relocate_path(dir, t.include_dir.as_str());
            t.src = src;
            t.include_dir = inc;
            out.push(t);
            assert(relocated(out@.last(), t0, dir@));
        }
        proof {
            i = i + 1;
            assert(rest@ =~= orig.subrange(i, orig.len() as int));
        }
    }
    out
}

impl Package {
    /// A package with the given parts.
    pub fn new(
        name: String,
        repo: String,
        branch: String,
        build_config: BuildConfig,
        target_configs: Vec<TargetConfig>,
        sub_packages: Vec<Package>,
    ) -> (r: Package)
        ensures
            r.name == name,
            r.repo == repo,
            r.branch == branch,
            r.build_config == build_config,
            r.target_configs == target_configs,
            r.sub_packages == sub_packages,
    {
        Package { name, repo, branch, build_config, target_configs, sub_packages }
    }
}

/// Assembles a resolved package: its own build settings with the root's
/// compiler in place of its own, and its targets kept and relocated into
/// its cache directory.
pub fn resolve_package(
    coordinate: Coordinate,
    own_build: BuildConfig,
    root_compiler: &str,
    targets: Vec<TargetConfig>,
    sub_packages: Vec<Package>,
) -> (r: Package)
    ensures
        r.name == coordinate.name,
        r.repo == coordinate.repo,
        r.branch == coordinate.branch,
        r.build_config.compiler@ == root_compiler@,
        r.build_config.packages == own_build.packages,
        r.target_configs@.len() == artifacts(targets@).len(),
        forall|k: int|
            0 <= k < r.target_configs@.len() ==> relocated(
                #[trigger] r.target_configs@[k],
                artifacts(targets@)[k],
                package_dir(coordinate.name@),
            ),
        r.sub_packages == sub_packages,
{
    let dir = package_source_dir(coordinate.name.as_str());
    let target_configs = filter_targets(dir.as_str(), targets);
    let build_config = BuildConfig { compiler: root_compiler.to_string(), packages: own_build.packages };
    Package::new(
        coordinate.name,
        coordinate.repo,
        coordinate.branch,
        build_config,
        target_configs,
        sub_packages,
    )
}

/// The names of `ps` are strictly increasing.
pub open spec fn sorted_by_name(ps: Seq<Package>) -> bool {
    forall|i: int, j: int| 0 <= i < j < ps.len() ==> text_lt(#[trigger] ps[i].name@, #[trigger] ps[j].name@)
}

/// `p` is the first package of `ps` with its name.
pub open spec fn first_of_name(ps: Seq<Package>, p: Package) -> bool {
    exists|i: int|
        0 <= i < ps.len() && ps[i] == p && forall|j: int| 0 <= j < i ==> #[trigger] ps[j].name@ != p.name@
}

/// Where a package named `name` stands among packages sorted by name: the
/// position of the one with that name, flagged, or else the position at
/// which it would be inserted.
fn find_slot(ps: &Vec<Package>, name: &str) -> (r: (usize, bool))
    requires
        sorted_by_name(ps@),
    ensures
        r.0 <= ps@.len(),
        r.1 ==> r.0 < ps@.len() && ps@[r.0 as int].name@ == name@,
        !r.1 ==> forall|k: int| 0 <= k < r.0 ==> text_lt(#[trigger] ps@[k].name@, name@),
        !r.1 ==> r.0 < ps@.len() ==> text_lt(name@, ps@[r.0 as int].name@),
{
    let mut pos: usize = 0;
    while pos < ps.len()
        invariant
            pos <= ps@.len(),
            forall|k: int| 0 <= k < pos ==> text_lt(#[trigger] ps@[k].name@, name@),
        decreases ps.len() - pos,
    {
        if same_text(ps[pos].name.as_str(), name) {
            return (pos, true);
        }
        if text_less(name, ps[pos].name.as_str()) {
            return (pos, false);
        }
        proof {
            lemma_text_lt_total(ps@[pos as int].name@, name@);
        }
        pos += 1;
    }
    (pos, false)
}

/// Some package of `out` is named `name`.
pub open spec fn has_name(out: Seq<Package>, name: Seq<char>) -> bool {
    exists|k: int| 0 <= k < out.len() && #[trigger] out[k].name@ == name
}

/// Every name of `ps` is the name of some package of `out`.
pub open spec fn names_covered(out: Seq<Package>, ps: Seq<Package>) -> bool {
    forall|j: int| 0 <= j < ps.len() ==> #[trigger] has_name(out, ps[j].name@)
}

proof fn lemma_first_of_name_extend(sub: Seq<Package>, p: Package, q: Package)
    requires
        first_of_name(sub, q),
    ensures
        first_of_name(sub.push(p), q),
{
    let sub1 = sub.push(p);
    let w = choose|w: int|
        0 <= w < sub.len() && sub[w] == q && forall|j: int|
            0 <= j < w ==> #[trigger] sub[j].name@ != q.name@;
    assert(sub1[w] == sub[w]);
    assert forall|j: int| 0 <= j < w implies #[trigger] sub1[j].name@ != q.name@ by {
        assert(sub1[j] == sub[j]);
    }
}

proof fn lemma_all_first_extend(out: Seq<Package>, sub: Seq<Package>, p: Package)
    requires
        forall|k: int| 0 <= k < out.len() ==> first_of_name(sub, #[trigger] out[k]),
    ensures
        forall|k: int| 0 <= k < out.len() ==> first_of_name(sub.push(p), #[trigger] out[k]),
{
    assert forall|k: int| 0 <= k < out.len() implies first_of_name(sub.push(p), #[trigger] out[k]) by {
        lemma_first_of_name_extend(sub, p, out[k]);
    }
}

proof fn lemma_covered_dup(out: Seq<Package>, sub: Seq<Package>, p: Package, pos: int)
    requires
        names_covered(out, sub),
        0 <= pos < out.len(),
        out[pos].name@ == p.name@,
    ensures
        names_covered(out, sub.push(p)),
{
    let sub1 = sub.push(p);
    assert forall|j: int| 0 <= j < sub1.len() implies #[trigger] has_name(out, sub1[j].name@) by {
        if j == sub.len() {
            assert(out[pos].name@ == sub1[j].name@);
        } else {
            assert(sub1[j] == sub[j]);
            assert(has_name(out, sub[j].name@));
        }
    }
}

proof fn lemma_covered_insert(
    before: Seq<Package>,
    out: Seq<Package>,
    sub: Seq<Package>,
    p: Package,
    pos: int,
)
    requires
        names_covered(before, sub),
        0 <= pos <= before.len(),
        out == before.insert(pos, p),
    ensures
        names_covered(out, sub.push(p)),
{
    let sub1 = sub.push(p);
    assert(out[pos] == p);
    assert forall|j: int| 0 <= j < sub1.len() implies #[trigger] has_name(out, sub1[j].name@) by {
        if j == sub.len() {
            assert(out[pos].name@ == sub1[j].name@);
        } else {
            assert(sub1[j] == sub[j]);
            assert(has_name(before, sub[j].name@));
            let kk = choose|kk: int| 0 <= kk < before.len() && #[trigger] before[kk].name@ == sub[j].name@;
            if kk < pos {
                assert(out[kk] == before[kk]);
            } else {
                assert(out[kk + 1] == before[kk]);
            }
        }
    }
}

proof fn lemma_insert_step(
    before: Seq<Package>,
    out: Seq<Package>,
    sub: Seq<Package>,
    p: Package,
    pos: int,
)
    requires
        sorted_by_name(before),
        forall|k: int| 0 <= k < before.len() ==> first_of_name(sub, #[trigger] before[k]),
        names_covered(before, sub),
        0 <= pos <= before.len(),
        forall|k: int| 0 <= k < pos ==> text_lt(#[trigger] before[k].name@, p.name@),
        pos < before.len() ==> text_lt(p.name@, before[pos].name@),
        out == before.insert(pos, p),
    ensures
        sorted_by_name(out),
        forall|k: int| 0 <= k < out.len() ==> first_of_name(sub.push(p), #[trigger] out[k]),
{
    let sub1 = sub.push(p);
    let n = out.len() as int;
    assert(n == before.len() + 1);
    assert forall|k: int| 0 <= k < pos implies #[trigger] out[k] == before[k] by {}
    assert forall|k: int| pos < k < n implies #[trigger] out[k] == before[k - 1] by {}
    assert(out[pos] == p);
    assert forall|k: int| pos <= k < before.len() implies text_lt(p.name@, #[trigger] before[k].name@) by {
        if k > pos {
            lemma_text_lt_transitive(p.name@, before[pos].name@, before[k].name@);
        }
    }
    assert forall|a: int, b: int| 0 <= a < b < n implies text_lt(
        #[trigger] out[a].name@,
        #[trigger] out[b].name@,
    ) by {
        if b < pos {
            assert(out[a] == before[a] && out[b] == before[b]);
        } else if b == pos {
            assert(out[a] == before[a]);
        } else if a < pos {
            assert(out[a] == before[a] && out[b] == before[b - 1]);
            lemma_text_lt_transitive(before[a].name@, p.name@, before[b - 1].name@);
        } else if a == pos {
            assert(out[b] == before[b - 1]);
        } else {
            assert(out[a] == before[a - 1] && out[b] == before[b - 1]);
        }
    }
    assert forall|k: int| 0 <= k < before.len() implies #[trigger] before[k].name@ != p.name@ by {
        lemma_text_lt_irreflexive(p.name@);
    }
    assert forall|k: int| 0 <= k < n implies first_of_name(sub1, #[trigger] out[k]) by {
        if k == pos {
            assert(sub1[sub.len() as int] == p);
            assert forall|j: int| 0 <= j < sub.len() implies #[trigger] sub1[j].name@ != p.name@ by {
                assert(sub1[j] == sub[j]);
                assert(has_name(before, sub[j].name@));
            }
        } else {
            let kb = if k < pos {
                k
            } else {
                k - 1
            };
            assert(out[k] == before[kb]);
            lemma_first_of_name_extend(sub, p, before[kb]);
        }
    }
}

/// Sorts packages by name and keeps, of the packages that share a name,
/// the first.
pub fn dedup_packages(packages: Vec<Package>) -> (r: Vec<Package>)
    ensures
        sorted_by_name(r@),
        forall|k: int| 0 <= k < r@.len() ==> first_of_name(packages@, #[trigger] r@[k]),
        names_covered(r@, packages@),
{
    let ghost orig = packages@;
    let mut rest = packages;
    let mut out: Vec<Package> = Vec::new();
    let ghost mut i: int = 0;
    assert(orig.subrange(0, orig.len() as int) =~= orig);
    while rest.len() > 0
        invariant
            orig == packages@,
            0 <= i <= orig.len(),
            rest@ == orig.subrange(i, orig.len() as int),
            sorted_by_name(out@),
            forall|k: int| 0 <= k < out@.len() ==> first_of_name(orig.subrange(0, i), #[trigger] out@[k]),
            names_covered(out@, orig.subrange(0, i)),
        decreases rest.len(),
    {
        let p = rest.remove(0);
        assert(p == orig[i]);
        let (pos, dup) = find_slot(&out, p.name.as_str());
        let ghost before = out@;
        assert(orig.subrange(0, i + 1) =~= orig.subrange(0, i).push(p));
        if dup {
            proof {
                lemma_all_first_extend(before, orig.subrange(0, i), p);
                lemma_covered_dup(before, orig.subrange(0, i), p, pos as int);
            }
        } else {
            out.insert(pos, p);
            proof {
                lemma_insert_step(before, out@, orig.subrange(0, i), p, pos as int);
                lemma_covered_insert(before, out@, orig.subrange(0, i), p, pos as int);
            }
        }
        proof {
            i = i + 1;
            assert(rest@ =~= orig.subrange(i, orig.len() as int));
        }
    }
    assert(orig.subrange(0, i) =~= orig);
    out
}

/// Flattening keeps the compiler authority: where every package handed to
/// `dedup_packages` carries compiler `c`, so does every package it returns.
pub proof fn lemma_dedup_keeps_compiler(ps: Seq<Package>, r: Seq<Package>, c: Seq<char>)
    requires
        all_compiler(ps, c),
        forall|k: int| 0 <= k < r.len() ==> first_of_name(ps, #[trigger] r[k]),
    ensures
        all_compiler(r, c),
{
    assert forall|k: int| 0 <= k < r.len() implies (#[trigger] r[k]).build_config.compiler@ == c by {
        assert(first_of_name(ps, r[k]));
        let i = choose|i: int|
            0 <= i < ps.len() && ps[i] == r[k] && forall|j: int|
                0 <= j < i ==> #[trigger] ps[j].name@ != r[k].name@;
        assert(ps[i].build_config.compiler@ == c);
    }
}

/// Adds a resolved package to the flat list of its siblings: first the
/// packages below it, in the order they were resolved, then the package
/// itself. Where all of them carry the root's compiler, so does the list.
pub fn flatten_step(flat: &mut Vec<Package>, below: Vec<Package>, package: Package)
    ensures
        final(flat)@ == old(flat)@ + below@ + seq![package],
        all_compiler(old(flat)@, package.build_config.compiler@) && all_compiler(
            below@,
            package.build_config.compiler@,
        ) ==> all_compiler(final(flat)@, package.build_config.compiler@),
{
    let ghost before = flat@;
    let ghost b0 = below@;
    let ghost p0 = package;
    let ghost c = package.build_config.compiler@;
    let mut below = below;
    flat.append(&mut below);
    flat.push(package);
    proof {
        assert(flat@ =~= before + b0 + seq![p0]);
        if all_compiler(before, c) && all_compiler(b0, c) {
            assert forall|i: int| 0 <= i < flat@.len() implies (#[trigger] flat@[i]).build_config.compiler@ == c by {
                if i < before.len() {
                    assert(flat@[i] == before[i]);
                } else if i < before.len() + b0.len() {
                    assert(flat@[i] == b0[i - before.len()]);
                }
            }
        }
    }
}

/// Whether repository `repo` is among those being resolved, `active`: a
/// package that reaches itself again through its dependencies.
pub fn is_active(active: &Vec<String>, repo: &str) -> (r: bool)
    ensures
        r == exists|i: int| 0 <= i < active@.len() && #[trigger] active@[i]@ == repo@,
{
    let mut i: usize = 0;
    while i < active.len()
        invariant
            i <= active@.len(),
            forall|j: int| 0 <= j < i ==> #[trigger] active@[j]@ != repo@,
        decreases active.len() - i,
    {
        if same_text(active[i].as_str(), repo) {
            return true;
        }
        i += 1;
    }
    false
}

} // verus!
