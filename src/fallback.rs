use vstd::prelude::*;

use crate::example_config::{
    finalize_config, resolve_scoped, ExampleConfigFinalized, FinalView, OptionsView,
    RunnerOptions, RunnerType, TemplateMap,
};
use crate::templates::options_view;

verus! {

/// The views of a list of finalized configurations.
pub open spec fn finals_view(s: Seq<ExampleConfigFinalized>) -> Seq<FinalView> {
    s.map_values(|c: ExampleConfigFinalized| c@)
}

/// `s` with `x` added unless already there.
pub open spec fn add_unique(s: Seq<FinalView>, x: FinalView) -> Seq<FinalView> {
    if s.contains(x) {
        s
    } else {
        s.push(x)
    }
}

/// `a` with each element of `b` added unless already there.
pub open spec fn union_seq(a: Seq<FinalView>, b: Seq<FinalView>) -> Seq<FinalView>
    decreases b.len(),
{
    if b.len() == 0 {
        a
    } else {
        add_unique(union_seq(a, b.drop_last()), b.last())
    }
}

/// Resolves every entry against the package's then the workspace's templates
/// and finalizes it with run type `Explicit`, keeping each result once. The
/// first entry that names a missing template gives the error.
pub open spec fn finalize_all(
    s: Seq<OptionsView>,
    package: Map<Seq<char>, crate::example_config::ConfigView>,
    workspace: Map<Seq<char>, crate::example_config::ConfigView>,
) -> Result<Seq<FinalView>, Seq<char>>
    decreases s.len(),
{
    if s.len() == 0 {
        Ok(Seq::empty())
    } else {
        match finalize_all(s.drop_last(), package, workspace) {
            Err(n) => Err(n),
            Ok(prev) => match resolve_scoped(s.last(), package, workspace) {
                Err(n) => Err(n),
                Ok(o) => Ok(add_unique(prev, finalize_config(o.config, RunnerType::Explicit))),
            },
        }
    }
}

/// The fallback set of a package: its own defaults, joined with the
/// workspace's when it extends them, or the workspace's when it has none.
pub open spec fn fallback_of(workspace: Seq<FinalView>, package: Seq<FinalView>, extend: bool) -> Seq<
    FinalView,
> {
    if package.len() > 0 && !extend {
        package
    } else if package.len() > 0 {
        union_seq(workspace, package)
    } else {
        workspace
    }
}

proof fn lemma_finalize_error_prefix(
    s: Seq<OptionsView>,
    k: int,
    package: Map<Seq<char>, crate::example_config::ConfigView>,
    workspace: Map<Seq<char>, crate::example_config::ConfigView>,
)
    requires
        0 <= k <= s.len(),
        finalize_all(s.take(k), package, workspace) is Err,
    ensures
        finalize_all(s, package, workspace) == finalize_all(s.take(k), package, workspace),
    decreases s.len(),
{
    if k < s.len() {
        assert(s.drop_last().take(k) =~= s.take(k));
        lemma_finalize_error_prefix(s.drop_last(), k, package, workspace);
    } else {
        assert(s.take(k) =~= s);
    }
}

proof fn lemma_union_set(a: Seq<FinalView>, b: Seq<FinalView>)
    ensures
        union_seq(a, b).to_set() == a.to_set() + b.to_set(),
    decreases b.len(),
{
    if b.len() > 0 {
        lemma_union_set(a, b.drop_last());
        let u = union_seq(a, b.drop_last());
        assert(b.to_set() =~= b.drop_last().to_set().insert(b.last())) by {
            assert forall|x: FinalView| b.to_set().contains(x) implies b.drop_last().to_set().insert(
                b.last(),
            ).contains(x) by {
                let j = choose|j: int| 0 <= j < b.len() && b[j] == x;
                if j < b.len() - 1 {
                    assert(b.drop_last()[j] == x);
                }
            }
            assert forall|x: FinalView| b.drop_last().to_set().insert(b.last()).contains(x) implies b.to_set().contains(x) by {
                if x != b.last() {
                    let j = choose|j: int| 0 <= j < b.len() - 1 && b.drop_last()[j] == x;
                    assert(b[j] == x);
                } else {
                    assert(b[b.len() - 1] == x);
                }
            }
        }
        if u.contains(b.last()) {
            assert(union_seq(a, b).to_set() =~= u.to_set().insert(b.last()));
        } else {
            assert(u.push(b.last()).to_set() =~= u.to_set().insert(b.last())) by {
                assert forall|x: FinalView| u.push(b.last()).to_set().contains(x) implies u.to_set().insert(
                    b.last(),
                ).contains(x) by {
                    let j = choose|j: int| 0 <= j < u.len() + 1 && u.push(b.last())[j] == x;
                    if j < u.len() {
                        assert(u[j] == x);
                    }
                }
                assert forall|x: FinalView| u.to_set().insert(b.last()).contains(x) implies u.push(
                    b.last(),
                ).to_set().contains(x) by {
                    if x == b.last() {
                        assert(u.push(b.last())[u.len() as int] == x);
                    } else {
                        let j = choose|j: int| 0 <= j < u.len() && u[j] == x;
                        assert(u.push(b.last())[j] == x);
                    }
                }
            }
        }
        assert(union_seq(a, b).to_set() =~= a.to_set() + b.to_set());
    } else {
        assert(b.to_set() =~= Set::<FinalView>::empty());
        assert(a.to_set() + b.to_set() =~= a.to_set());
    }
}

/// The fallback set depends on the workspace's defaults `w`, the package's
/// defaults `p` and the extend flag alone: without extending it is `p`, or
/// `w` when `p` is empty; with extending it is the union of `w` and `p`.
pub proof fn lemma_fallback_sets(w: Seq<FinalView>, p: Seq<FinalView>, extend: bool)
    ensures
        !extend ==> fallback_of(w, p, extend).to_set() == (if p.len() > 0 {
            p.to_set()
        } else {
            w.to_set()
        }),
        extend ==> fallback_of(w, p, extend).to_set() == w.to_set() + p.to_set(),
{
    lemma_union_set(w, p);
    if p.len() == 0 {
        assert(p.to_set() =~= Set::<FinalView>::empty());
        assert(w.to_set() + p.to_set() =~= w.to_set());
    }
}

/// Adds `x` to `v` unless an equal configuration is there.
pub fn insert_unique(v: &mut Vec<ExampleConfigFinalized>, x: ExampleConfigFinalized)
    ensures
        finals_view(final(v)@) == add_unique(finals_view(old(v)@), x@),
{
    let ghost xv = x@;
    let mut i: usize = 0;
    while i < v.len()
        invariant
            i <= v@.len(),
            forall|j: int| 0 <= j < i ==> v@[j]@ != xv,
            xv == x@,
        decreases v@.len() - i,
    {
        if v[i].same_as(&x) {
            assert(finals_view(v@)[i as int] == xv);
            return;
        }
        i = i + 1;
    }
    proof {
        assert(!finals_view(v@).contains(xv)) by {
            if finals_view(v@).contains(xv) {
                let j = choose|j: int| 0 <= j < finals_view(v@).len() && finals_view(v@)[j] == xv;
                assert(v@[j]@ == xv);
            }
        }
    }
    let ghost before = v@;
    v.push(x);
    assert(finals_view(v@) =~= finals_view(before).push(xv));
}

/// Adds to `a` each configuration of `b` that it does not hold yet.
pub fn union_into(a: &mut Vec<ExampleConfigFinalized>, b: &Vec<ExampleConfigFinalized>)
    ensures
        finals_view(final(a)@) == union_seq(finals_view(old(a)@), finals_view(b@)),
{
    let ghost a0 = finals_view(a@);
    let mut i: usize = 0;
    while i < b.len()
        invariant
            i <= b@.len(),
            finals_view(a@) == union_seq(a0, finals_view(b@).take(i as int)),
        decreases b@.len() - i,
    {
        insert_unique(a, b[i].copied());
        proof {
            let bv = finals_view(b@);
            assert(bv.take(i + 1).drop_last() =~= bv.take(i as int));
        }
        i = i + 1;
    }
    assert(finals_view(b@).take(i as int) =~= finals_view(b@));
}

/// Resolves and finalizes every entry; see [`finalize_all`].
pub fn finalize_entries(entries: &Vec<RunnerOptions>, package: &TemplateMap, workspace: &TemplateMap) -> (r:
    Result<Vec<ExampleConfigFinalized>, crate::example_config::TemplateResolveError>)
    ensures
        match finalize_all(options_view(entries@), package@, workspace@) {
            Ok(s) => r is Ok && finals_view(r->Ok_0@) == s,
            Err(n) => r is Err && r->Err_0.missing() == n,
        },
{
    let ghost ov = options_view(entries@);
    let mut acc: Vec<ExampleConfigFinalized> = Vec::new();
    let mut i: usize = 0;
    assert(finals_view(acc@) =~= Seq::<FinalView>::empty());
    assert(ov.take(0) =~= Seq::<OptionsView>::empty());
    while i < entries.len()
        invariant
            i <= entries@.len(),
            ov == options_view(entries@),
            finalize_all(ov.take(i as int), package@, workspace@) == Ok::<Seq<FinalView>, Seq<char>>(
                finals_view(acc@),
            ),
        decreases entries@.len() - i,
    {
        proof {
            assert(ov.take(i + 1).drop_last() =~= ov.take(i as int));
            assert(ov.take(i + 1).last() == entries@[i as int]@);
        }
        match entries[i].copied().resolve_in_scopes(package, workspace) {
            Ok(o) => {
                let f = o.extract_config().with_default_type(RunnerType::Explicit);
                insert_unique(&mut acc, f);
            },
            Err(e) => {
                proof {
                    lemma_finalize_error_prefix(ov, i + 1, package@, workspace@);
                }
                return Err(e);
            },
        }
        i = i + 1;
    }
    assert(ov.take(i as int) =~= ov);
    Ok(acc)
}

/// The fallback set of a package from the workspace's finalized defaults,
/// the package's finalized defaults and its extend flag.
pub fn fallback_configs(
    workspace: &Vec<ExampleConfigFinalized>,
    package: Vec<ExampleConfigFinalized>,
    extend: bool,
) -> (r: Vec<ExampleConfigFinalized>)
    ensures
        finals_view(r@) == fallback_of(finals_view(workspace@), finals_view(package@), extend),
{
    if package.len() > 0 && !extend {
        package
    } else if package.len() > 0 {
        let mut r = copy_finals(workspace);
        union_into(&mut r, &package);
        r
    } else {
        copy_finals(workspace)
    }
}

/// A copy of a list of finalized configurations.
pub fn copy_finals(v: &Vec<ExampleConfigFinalized>) -> (r: Vec<ExampleConfigFinalized>)
    ensures
        finals_view(r@) == finals_view(v@),
{
    let mut r: Vec<ExampleConfigFinalized> = Vec::new();
    let mut i: usize = 0;
    while i < v.len()
        invariant
            i <= v@.len(),
            finals_view(r@) == finals_view(v@).take(i as int),
        decreases v@.len() - i,
    {
        let ghost before = r@;
        r.push(v[i].copied());
        assert(finals_view(r@) =~= finals_view(before).push(v@[i as int]@));
        assert(finals_view(r@) =~= finals_view(v@).take(i + 1));
        i = i + 1;
    }
    assert(finals_view(v@).take(i as int) =~= finals_view(v@));
    r
}

} // verus!
