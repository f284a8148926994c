//! Discovery: building the variables of a scope from what the engine
//! reports of them.

use vstd::prelude::*;
use vstd::hash_map::StringHashMap;
use crate::attribute::{cache_of, Attribute};
use crate::dimension::{lengths, product, Dimension};
use crate::error::{AccessError, ShapeFault};
use crate::variable::Variable;

verus! {

/// What the engine reports of one variable: its name, the tag of its element
/// kind, the ids of its dimensions in their declared order, and its
/// attributes.
#[derive(Debug)]
pub struct VariableInfo {
    pub name: String,
    pub vartype: i32,
    pub dimids: Vec<i32>,
    pub attributes: Vec<Attribute>,
}

/// The variables of a scope, each under its name.
pub struct Catalog {
    vars: StringHashMap<Variable>,
}

impl View for Catalog {
    type V = Map<Seq<char>, Variable>;

    closed spec fn view(&self) -> Map<Seq<char>, Variable> {
        self.vars@
    }
}

impl Catalog {
    /// A catalog without variables.
    pub fn new() -> (r: Catalog)
        ensures
            r@ == Map::<Seq<char>, Variable>::empty(),
    {
        Catalog { vars: StringHashMap::new() }
    }

    /// The variable of that name, if there is one.
    pub fn get(&self, name: &str) -> (r: Option<&Variable>)
        ensures
            match r {
                Some(variable) => self@.contains_key(name@) && *variable == self@[name@],
                None => !self@.contains_key(name@),
            },
    {
        self.vars.get(name)
    }

    /// The number of variables.
    pub fn len(&self) -> (r: usize)
        ensures
            r == self@.len(),
    {
        self.vars.len()
    }
}

/// The first of `grp_dims`, from position `from` on, that has the id `id`.
pub open spec fn find_dimension(grp_dims: Seq<Dimension>, id: i32, from: int) -> Option<Dimension>
    decreases grp_dims.len() - from,
{
    if from < 0 || from >= grp_dims.len() {
        None
    } else if grp_dims[from].id == id {
        Some(grp_dims[from])
    } else {
        find_dimension(grp_dims, id, from + 1)
    }
}

/// The dimensions of a scope that `dimids` name, in the order of `dimids`.
/// An id that no dimension of the scope has names none.
pub open spec fn resolved(grp_dims: Seq<Dimension>, dimids: Seq<i32>) -> Seq<Dimension>
    decreases dimids.len(),
{
    if dimids.len() == 0 {
        Seq::empty()
    } else {
        let front = resolved(grp_dims, dimids.drop_last());
        match find_dimension(grp_dims, dimids.last(), 0) {
            Some(dimension) => front.push(dimension),
            None => front,
        }
    }
}

/// Every id in `dimids` is that of a dimension of the scope.
pub open spec fn all_known(grp_dims: Seq<Dimension>, dimids: Seq<i32>) -> bool {
    forall|i: int| 0 <= i < dimids.len() ==> find_dimension(grp_dims, #[trigger] dimids[i], 0) is Some
}

/// What is found has the id that was looked for.
pub proof fn lemma_find_dimension(grp_dims: Seq<Dimension>, id: i32, from: int)
    ensures
        find_dimension(grp_dims, id, from) is Some ==> find_dimension(grp_dims, id, from)->Some_0.id
            == id,
    decreases grp_dims.len() - from,
{
    if 0 <= from < grp_dims.len() && grp_dims[from].id != id {
        lemma_find_dimension(grp_dims, id, from + 1);
    }
}

/// Where every id is known, the resolved dimensions are as many as the ids,
/// and each stands where its id stands: the declared order is kept.
pub proof fn lemma_resolved_in_order(grp_dims: Seq<Dimension>, dimids: Seq<i32>)
    requires
        all_known(grp_dims, dimids),
    ensures
        resolved(grp_dims, dimids).len() == dimids.len(),
        forall|i: int|
            0 <= i < dimids.len() ==> Some(#[trigger] resolved(grp_dims, dimids)[i])
                == find_dimension(grp_dims, dimids[i], 0) && resolved(grp_dims, dimids)[i].id
                == dimids[i],
    decreases dimids.len(),
{
    if dimids.len() > 0 {
        let front = dimids.drop_last();
        assert(all_known(grp_dims, front)) by {
            assert forall|i: int| 0 <= i < front.len() implies find_dimension(
                grp_dims,
                #[trigger] front[i],
                0,
            ) is Some by {
                assert(front[i] == dimids[i]);
            }
        }
        lemma_resolved_in_order(grp_dims, front);
        assert(find_dimension(grp_dims, dimids[dimids.len() - 1], 0) is Some);
        lemma_find_dimension(grp_dims, dimids.last(), 0);
        assert forall|i: int| 0 <= i < dimids.len() implies Some(
            #[trigger] resolved(grp_dims, dimids)[i],
        ) == find_dimension(grp_dims, dimids[i], 0) && resolved(grp_dims, dimids)[i].id
            == dimids[i] by {
            if i < front.len() {
                assert(front[i] == dimids[i]);
                assert(resolved(grp_dims, dimids)[i] == resolved(grp_dims, front)[i]);
            }
        }
    }
}

/// Looks up the dimension with the id `id` among those of a scope.
pub fn lookup_dimension(grp_dims: &Vec<Dimension>, id: i32) -> (r: Option<Dimension>)
    ensures
        r == find_dimension(grp_dims@, id, 0),
{
    let mut i: usize = 0;
    while i < grp_dims.len()
        invariant
            0 <= i <= grp_dims.len(),
            find_dimension(grp_dims@, id, 0) == find_dimension(grp_dims@, id, i as int),
        decreases grp_dims.len() - i,
    {
        if grp_dims[i].id == id {
            return Some(grp_dims[i].clone());
        }
        i += 1;
    }
    None
}

/// Resolves the ids of a variable's dimensions against the dimensions of its
/// scope, keeping their order.
pub fn resolve_dimensions(grp_dims: &Vec<Dimension>, dimids: &Vec<i32>) -> (r: Vec<Dimension>)
    ensures
        r@ == resolved(grp_dims@, dimids@),
{
    let mut dims: Vec<Dimension> = Vec::new();
    let mut i: usize = 0;
    while i < dimids.len()
        invariant
            0 <= i <= dimids.len(),
            dims@ == resolved(grp_dims@, dimids@.take(i as int)),
        decreases dimids.len() - i,
    {
        assert(dimids@.take(i as int + 1).drop_last() =~= dimids@.take(i as int));
        match lookup_dimension(grp_dims, dimids[i]) {
            Some(dimension) => {
                dims.push(dimension);
            },
            None => {},
        }
        i += 1;
    }
    assert(dimids@.take(i as int) =~= dimids@);
    dims
}

/// Whether `variable` is what discovery makes of `info`, reported of the
/// variable `varid` of scope `grp_id`, whose dimensions are `grp_dims`.
pub open spec fn discovered(
    variable: Variable,
    grp_id: i32,
    grp_dims: Seq<Dimension>,
    varid: i32,
    info: VariableInfo,
) -> bool {
    &&& variable.well_formed()
    &&& variable.spec_name() == info.name@
    &&& variable.spec_vartype() == info.vartype
    &&& variable.spec_id() == varid
    &&& variable.spec_grp_id() == grp_id
    &&& variable.spec_dimensions() == resolved(grp_dims, info.dimids@)
    &&& variable.spec_len() == product(lengths(resolved(grp_dims, info.dimids@)))
    &&& variable.spec_attributes() == cache_of(info.attributes@)
}

/// Whether the dimensions that `info` names hold more elements together
/// than a `u64` can count.
pub open spec fn too_large(grp_dims: Seq<Dimension>, info: VariableInfo) -> bool {
    product(lengths(resolved(grp_dims, info.dimids@))) > u64::MAX
}

/// Builds the variable `varid` of scope `grp_id` from what the engine
/// reported of it, and enters it into `vars` under its name, in place of any
/// variable of that name. Refused, with `vars` left as it is, where the
/// variable would hold more elements than a `u64` can count.
pub fn init_variable(
    vars: &mut Catalog,
    grp_id: i32,
    grp_dims: &Vec<Dimension>,
    varid: i32,
    info: &VariableInfo,
) -> (r: Result<(), AccessError>)
    ensures
        too_large(grp_dims@, *info) ==> r == Err::<(), AccessError>(
            AccessError::Shape(ShapeFault::TooLarge),
        ) && final(vars)@ == old(vars)@,
        !too_large(grp_dims@, *info) ==> {
            &&& r == Ok::<(), AccessError>(())
            &&& final(vars)@.dom() == old(vars)@.dom().insert(info.name@)
            &&& discovered(final(vars)@[info.name@], grp_id, grp_dims@, varid, *info)
            &&& forall|other: Seq<char>|
                other != info.name@ && old(vars)@.contains_key(other) ==> #[trigger] final(vars)@[other]
                    == old(vars)@[other]
        },
{
    let dimensions = resolve_dimensions(grp_dims, &info.dimids);
    match Variable::new(
        info.name.clone(),
        info.vartype,
        varid,
        grp_id,
        dimensions,
        &info.attributes,
    ) {
        Ok(variable) => {
            vars.vars.insert(info.name.clone(), variable);
            Ok(())
        },
        Err(error) => Err(error),
    }
}

/// Some info among `infos` is of a variable named `name`.
pub open spec fn named(infos: Seq<VariableInfo>, name: Seq<char>) -> bool {
    exists|i: int| 0 <= i < infos.len() && (#[trigger] infos[i]).name@ == name
}

/// The info at position `i` is the last among `infos` of a variable of its
/// name.
pub open spec fn last_of_its_name(infos: Seq<VariableInfo>, i: int) -> bool {
    &&& 0 <= i < infos.len()
    &&& forall|j: int| i < j < infos.len() ==> (#[trigger] infos[j]).name@ != infos[i].name@
}

/// Whether `after` is what discovery makes of `before` and of `infos`, the
/// reports of the variables `0`, `1`, ... of scope `grp_id`: it holds the
/// names that `before` holds and those reported; under each reported name,
/// the variable built from the last report of that name, with the position
/// of that report as its id; and under every other name what `before` holds.
pub open spec fn catalogued(
    before: Map<Seq<char>, Variable>,
    after: Map<Seq<char>, Variable>,
    grp_id: i32,
    grp_dims: Seq<Dimension>,
    infos: Seq<VariableInfo>,
) -> bool {
    &&& forall|name: Seq<char>| #[trigger]
        after.contains_key(name) <==> before.contains_key(name) || named(infos, name)
    &&& forall|i: int| #[trigger]
        last_of_its_name(infos, i) ==> discovered(
            after[infos[i].name@],
            grp_id,
            grp_dims,
            i as i32,
            infos[i],
        )
    &&& forall|name: Seq<char>|
        before.contains_key(name) && !named(infos, name) ==> #[trigger] after[name] == before[name]
}

/// Builds the variables of scope `grp_id` from what the engine reported of
/// them, the report at position `i` being that of the variable with id `i`,
/// and enters each into `vars` under its name. Of two variables of one name
/// the later stays. Discovery stops at the first variable that would hold
/// more elements than a `u64` can count; those before it are entered.
pub fn init_variables(
    vars: &mut Catalog,
    grp_id: i32,
    grp_dims: &Vec<Dimension>,
    infos: &Vec<VariableInfo>,
) -> (r: Result<(), AccessError>)
    requires
        infos@.len() <= i32::MAX,
    ensures
        match r {
            Ok(()) => {
                &&& forall|i: int| 0 <= i < infos@.len() ==> !too_large(grp_dims@, #[trigger] infos@[i])
                &&& catalogued(old(vars)@, final(vars)@, grp_id, grp_dims@, infos@)
            },
            Err(error) => {
                &&& error == AccessError::Shape(ShapeFault::TooLarge)
                &&& exists|k: int|
                    {
                        &&& 0 <= k < infos@.len()
                        &&& too_large(grp_dims@, #[trigger] infos@[k])
                        &&& forall|i: int| 0 <= i < k ==> !too_large(grp_dims@, #[trigger] infos@[i])
                        &&& catalogued(old(vars)@, final(vars)@, grp_id, grp_dims@, infos@.take(k))
                    }
            },
        },
{
    let mut i: usize = 0;
    while i < infos.len()
        invariant
            0 <= i <= infos@.len() <= i32::MAX,
            forall|j: int| 0 <= j < i ==> !too_large(grp_dims@, #[trigger] infos@[j]),
            catalogued(old(vars)@, vars@, grp_id, grp_dims@, infos@.take(i as int)),
        decreases infos@.len() - i,
    {
        let ghost before = vars@;
        let ghost done = infos@.take(i as int);
        let ghost next = infos@.take(i as int + 1);
        match init_variable(vars, grp_id, grp_dims, i as i32, &infos[i]) {
            Ok(()) => {},
            Err(error) => {
                return Err(error);
            },
        }
        proof {
            let info = infos@[i as int];
            let after = vars@;
            assert(next.drop_last() =~= done);
            assert(next[i as int] == info);
            assert forall|name: Seq<char>| #[trigger]
                after.contains_key(name) <==> old(vars)@.contains_key(name) || named(
                    next,
                    name,
                ) by {
                assert(before.contains_key(name) <==> old(vars)@.contains_key(name) || named(
                    done,
                    name,
                ));
                if named(done, name) {
                    let j = choose|j: int| 0 <= j < done.len() && (#[trigger] done[j]).name@ == name;
                    assert(next[j].name@ == name);
                }
                if named(next, name) {
                    let j = choose|j: int| 0 <= j < next.len() && (#[trigger] next[j]).name@ == name;
                    if j < i {
                        assert(done[j].name@ == name);
                    }
                }
            }
            assert forall|k: int| #[trigger] last_of_its_name(next, k) implies discovered(
                after[next[k].name@],
                grp_id,
                grp_dims@,
                k as i32,
                next[k],
            ) by {
                if k < i {
                    assert(next[i as int].name@ != next[k].name@);
                    assert(last_of_its_name(done, k)) by {
                        assert forall|j: int| k < j < done.len() implies (#[trigger] done[j]).name@
                            != done[k].name@ by {
                            assert(next[j].name@ != next[k].name@);
                        }
                    }
                    assert(done[k] == next[k]);
                    assert(named(done, done[k].name@));
                    assert(before.contains_key(next[k].name@));
                }
            }
            assert forall|name: Seq<char>|
                old(vars)@.contains_key(name) && !named(next, name) implies #[trigger] after[name]
                == old(vars)@[name] by {
                assert(next[i as int].name@ != name);
                if named(done, name) {
                    let j = choose|j: int| 0 <= j < done.len() && (#[trigger] done[j]).name@ == name;
                    assert(next[j].name@ == name);
                }
                assert(before.contains_key(name));
            }
        }
        i += 1;
    }
    assert(infos@.take(i as int) =~= infos@);
    Ok(())
}

} // verus!
