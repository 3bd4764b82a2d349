//! EXTENDS-based polymorphism: which types a hub type is compatible with,
//! the chain of types it extends, and the fields and roles it inherits.
use vstd::prelude::*;

use crate::model::{copy_strings, strings_view, FieldView, HubFieldDef, HubRoleDef, HubType, RoleView, TypeView, Workspace};
use crate::text::str_eq;
use crate::resolution::{all_hub_types, all_types_of, find_type_index, is_first_type_index};

verus! {

// ---------- the EXTENDS relation ----------

/// The index of the first type of `all` named `name`.
pub open spec fn first_index_of(all: Seq<TypeView>, name: Seq<char>) -> Option<int> {
    if exists|i: int| is_first_type_index(all, name, i) {
        Some(choose|i: int| is_first_type_index(all, name, i))
    } else {
        None
    }
}

/// A name has at most one first index.
pub proof fn lemma_first_index_unique(all: Seq<TypeView>, name: Seq<char>, i: int, j: int)
    requires
        is_first_type_index(all, name, i),
        is_first_type_index(all, name, j),
    ensures
        i == j,
{
    if i < j {
        assert(all[i].name != name);
    } else if j < i {
        assert(all[j].name != name);
    }
}

/// `first_index_of` agrees with `is_first_type_index`.
pub proof fn lemma_first_index_of(all: Seq<TypeView>, name: Seq<char>)
    ensures
        forall|i: int| is_first_type_index(all, name, i) ==> first_index_of(all, name) == Some(i),
        first_index_of(all, name) matches Some(i) ==> is_first_type_index(all, name, i),
        first_index_of(all, name) is None ==> forall|j: int| 0 <= j < all.len() ==> all[j].name != name,
{
    if exists|i: int| is_first_type_index(all, name, i) {
        let k = choose|i: int| is_first_type_index(all, name, i);
        assert forall|i: int| is_first_type_index(all, name, i) implies first_index_of(all, name) == Some(i) by {
            lemma_first_index_unique(all, name, i, k);
        }
    } else {
        assert forall|j: int| 0 <= j < all.len() implies all[j].name != name by {
            if all[j].name == name {
                lemma_has_first_index(all, name, j);
            }
        }
    }
}

/// A name that some type has has a first index.
proof fn lemma_has_first_index(all: Seq<TypeView>, name: Seq<char>, j: int)
    requires
        0 <= j < all.len(),
        all[j].name == name,
    ensures
        exists|i: int| is_first_type_index(all, name, i),
    decreases j,
{
    if forall|k: int| 0 <= k < j ==> all[k].name != name {
        assert(is_first_type_index(all, name, j));
    } else {
        let k2 = choose|k: int| 0 <= k < j && all[k].name == name;
        lemma_has_first_index(all, name, k2);
    }
}

/// The parent names of the type that `name` resolves to in `all`.
pub open spec fn parents_of(all: Seq<TypeView>, name: Seq<char>) -> Seq<Seq<char>> {
    match first_index_of(all, name) {
        Some(i) => all[i].extends_parents,
        None => Seq::empty(),
    }
}

/// `path` walks up the EXTENDS relation from one of `seeds`: each name is
/// a parent of the one before it.
pub open spec fn is_extends_walk(all: Seq<TypeView>, seeds: Seq<Seq<char>>, path: Seq<Seq<char>>) -> bool {
    &&& path.len() > 0
    &&& seeds.contains(path[0])
    &&& forall|k: int| 0 <= k < path.len() - 1 ==> #[trigger] parents_of(all, path[k]).contains(path[k + 1])
}

/// Some walk up the EXTENDS relation from `seeds` ends at `name`.
pub open spec fn reaches(all: Seq<TypeView>, seeds: Seq<Seq<char>>, name: Seq<char>) -> bool {
    exists|path: Seq<Seq<char>>| #[trigger] is_extends_walk(all, seeds, path) && path.last() == name
}

/// Where a compatibility walk for `t` starts: its parents and its own name.
pub open spec fn type_seeds(t: TypeView) -> Seq<Seq<char>> {
    t.extends_parents.push(t.name)
}

/// A type fits an allows list when the list is empty, or when the type's
/// name or a name reached from it through EXTENDS is in the list.
pub open spec fn spec_allows(all: Seq<TypeView>, t: TypeView, allowed: Seq<Seq<char>>) -> bool {
    allowed.len() == 0 || exists|name: Seq<char>| reaches(all, type_seeds(t), name) && allowed.contains(name)
}

proof fn lemma_walk_push(all: Seq<TypeView>, seeds: Seq<Seq<char>>, path: Seq<Seq<char>>, p: Seq<char>)
    requires
        is_extends_walk(all, seeds, path),
        parents_of(all, path.last()).contains(p),
    ensures
        is_extends_walk(all, seeds, path.push(p)),
        path.push(p).last() == p,
{
    let q = path.push(p);
    assert forall|k: int| 0 <= k < q.len() - 1 implies #[trigger] parents_of(all, q[k]).contains(q[k + 1]) by {
        if k < path.len() - 1 {
            assert(q[k] == path[k] && q[k + 1] == path[k + 1]);
            assert(parents_of(all, path[k]).contains(path[k + 1]));
        } else {
            assert(q[k] == path.last());
        }
    }
}

/// Every name on a walk from the seeds lies in a set that holds the seeds
/// and is closed under taking parents.
proof fn lemma_closed_holds_walk(
    all: Seq<TypeView>,
    seeds: Seq<Seq<char>>,
    done: Set<Seq<char>>,
    path: Seq<Seq<char>>,
)
    requires
        is_extends_walk(all, seeds, path),
        forall|s: Seq<char>| seeds.contains(s) ==> done.contains(s),
        forall|x: Seq<char>, p: Seq<char>| done.contains(x) && parents_of(all, x).contains(p) ==> done.contains(p),
    ensures
        done.contains(path.last()),
    decreases path.len(),
{
    if path.len() > 1 {
        let q = path.drop_last();
        assert forall|k: int| 0 <= k < q.len() - 1 implies #[trigger] parents_of(all, q[k]).contains(q[k + 1]) by {
            assert(parents_of(all, path[k]).contains(path[k + 1]));
        }
        assert(q[0] == path[0]);
        lemma_closed_holds_walk(all, seeds, done, q);
        let k = path.len() - 2;
        assert(parents_of(all, path[k]).contains(path[k + 1]));
        assert(q.last() == path[k]);
    }
}

/// Whether `names` holds `name`.
pub fn contains_name(names: &[String], name: &String) -> (b: bool)
    ensures
        b == strings_view(names@).contains(name@),
{
    let mut i: usize = 0;
    while i < names.len()
        invariant
            i <= names.len(),
            forall|j: int| 0 <= j < i ==> names@[j]@ != name@,
        decreases names.len() - i,
    {
        if names[i] == *name {
            assert(strings_view(names@)[i as int] == name@);
            return true;
        }
        i = i + 1;
    }
    assert forall|j: int| 0 <= j < strings_view(names@).len() implies strings_view(names@)[j] != name@ by {
        assert(strings_view(names@)[j] == names@[j]@);
    }
    false
}

/// Whether `hub_type` fits the allows list `allowed_types`: the list is
/// empty, or it names the type or a type in its EXTENDS chain (parents are
/// resolved among all types of the workspace, by first name).
pub fn hub_type_allows(ws: &Workspace, hub_type: &HubType, allowed_types: &[String]) -> (b: bool)
    ensures
        b == spec_allows(all_types_of(ws@), hub_type@, strings_view(allowed_types@)),
{
    if allowed_types.len() == 0 {
        return true;
    }
    let all_types = all_hub_types(ws);
    let ghost all = all_types@.map_values(|t: HubType| t@);
    let ghost seeds = type_seeds(hub_type@);
    let ghost allowed = strings_view(allowed_types@);
    let mut stack = copy_strings(&hub_type.extends_parents);
    stack.push(hub_type.name.clone());
    assert(strings_view(stack@) =~= seeds);
    let mut visited: Vec<bool> = Vec::new();
    let mut j: usize = 0;
    while j < all_types.len()
        invariant
            j <= all_types.len(),
            visited@.len() == j,
            forall|k: int| 0 <= k < j ==> !visited@[k],
        decreases all_types.len() - j,
    {
        visited.push(false);
        j = j + 1;
    }
    let ghost mut done: Set<Seq<char>> = Set::empty();
    proof {
        assert forall|k: int| 0 <= k < stack@.len() implies reaches(all, seeds, #[trigger] stack@[k]@) by {
            let path = seq![stack@[k]@];
            assert(strings_view(stack@)[k] == stack@[k]@);
            assert(is_extends_walk(all, seeds, path));
        }
    }
    while stack.len() > 0
        invariant
            all == all_types@.map_values(|t: HubType| t@),
            all == all_types_of(ws@),
            seeds == type_seeds(hub_type@),
            allowed == strings_view(allowed_types@),
            visited@.len() == all.len(),
            forall|k: int| 0 <= k < stack@.len() ==> reaches(all, seeds, #[trigger] stack@[k]@),
            forall|x: Seq<char>| done.contains(x) ==> !allowed.contains(x),
            forall|s: Seq<char>| seeds.contains(s) ==> done.contains(s) || strings_view(stack@).contains(s),
            forall|x: Seq<char>, p: Seq<char>|
                done.contains(x) && parents_of(all, x).contains(p) ==> done.contains(p) || strings_view(
                    stack@,
                ).contains(p),
            forall|i: int| 0 <= i < visited@.len() && visited@[i] ==> done.contains(#[trigger] all[i].name),
        decreases count_false(visited@), stack.len(),
    {
        let ghost old_stack = stack@;
        let name = stack.pop().unwrap();
        assert(old_stack == stack@.push(name));
        assert(reaches(all, seeds, old_stack[old_stack.len() - 1]@));
        proof {
            // what the stack held before is held now, or is `name`
            assert forall|p: Seq<char>| strings_view(old_stack).contains(p) implies strings_view(stack@).contains(p)
                || p == name@ by {
                let k = choose|k: int| 0 <= k < strings_view(old_stack).len() && strings_view(old_stack)[k] == p;
                if k < stack@.len() {
                    assert(strings_view(stack@)[k] == p);
                }
            }
            assert forall|k: int| 0 <= k < stack@.len() implies reaches(all, seeds, #[trigger] stack@[k]@) by {
                assert(old_stack[k] == stack@[k]);
            }
        }
        let found = find_type_index(&all_types, &name);
        proof {
            lemma_first_index_of(all, name@);
        }
        let already = match found {
            Some(i) => visited[i],
            None => false,
        };
        if !already {
            if contains_name(allowed_types, &name) {
                proof {
                    assert(reaches(all, seeds, name@) && allowed.contains(name@));
                }
                return true;
            }
            proof {
                done = done.insert(name@);
            }
            match found {
                Some(i) => {
                    proof {
                        lemma_count_false_set(visited@, i as int);
                    }
                    visited.set(i, true);
                    let ghost before = stack@;
                    let ghost walk = choose|path: Seq<Seq<char>>| #[trigger] is_extends_walk(all, seeds, path) && path.last() == name@;
                    let parents = &all_types[i].extends_parents;
                    let mut k: usize = 0;
                    while k < parents.len()
                        invariant
                            k <= parents.len(),
                            parents == &all_types@[i as int].extends_parents,
                            all == all_types@.map_values(|t: HubType| t@),
                            parents_of(all, name@) == strings_view(parents@),
                            is_extends_walk(all, seeds, walk),
                            walk.last() == name@,
                            stack@ == before + parents@.take(k as int),
                            forall|m: int| 0 <= m < before.len() ==> reaches(all, seeds, #[trigger] before[m]@),
                        decreases parents.len() - k,
                    {
                        proof {
                            assert(strings_view(parents@)[k as int] == parents@[k as int]@);
                            lemma_walk_push(all, seeds, walk, parents@[k as int]@);
                        }
                        stack.push(parents[k].clone());
                        k = k + 1;
                        proof {
                            assert(parents@.take(k as int) == parents@.take(k - 1).push(parents@[k - 1]));
                        }
                    }
                    proof {
                        assert(parents@.take(parents@.len() as int) =~= parents@);
                        assert forall|m: int| 0 <= m < stack@.len() implies reaches(all, seeds, #[trigger] stack@[m]@) by {
                            if m >= before.len() {
                                let w = walk.push(stack@[m]@);
                                assert(strings_view(parents@)[m - before.len()] == stack@[m]@);
                                lemma_walk_push(all, seeds, walk, stack@[m]@);
                                assert(is_extends_walk(all, seeds, w));
                            } else {
                                assert(stack@[m] == before[m]);
                            }
                        }
                        assert forall|p: Seq<char>| strings_view(before).contains(p) implies strings_view(stack@).contains(p) by {
                            let q = choose|q: int| 0 <= q < strings_view(before).len() && strings_view(before)[q] == p;
                            assert(strings_view(stack@)[q] == p);
                        }
                        assert forall|p: Seq<char>| parents_of(all, name@).contains(p) implies strings_view(stack@).contains(p) by {
                            let q = choose|q: int| 0 <= q < strings_view(parents@).len() && strings_view(parents@)[q] == p;
                            assert(strings_view(stack@)[before.len() + q] == p);
                        }
                    }
                },
                None => {
                    assert(parents_of(all, name@) =~= Seq::<Seq<char>>::empty());
                },
            }
        }
    }
    proof {
        assert forall|x: Seq<char>, p: Seq<char>| done.contains(x) && parents_of(all, x).contains(p) implies done.contains(p) by {
            assert(!strings_view(stack@).contains(p));
        }
        assert forall|name: Seq<char>| reaches(all, seeds, name) implies !allowed.contains(name) by {
            let path = choose|path: Seq<Seq<char>>| #[trigger] is_extends_walk(all, seeds, path) && path.last() == name;
            lemma_closed_holds_walk(all, seeds, done, path);
        }
    }
    false
}

// ---------- counting unvisited entries ----------

/// How many entries of `v` are `false`.
pub open spec fn count_false(v: Seq<bool>) -> nat
    decreases v.len(),
{
    if v.len() == 0 {
        0
    } else {
        count_false(v.drop_last()) + if v.last() { 0nat } else { 1nat }
    }
}

/// Setting a `false` entry lowers the count by one.
pub proof fn lemma_count_false_set(v: Seq<bool>, i: int)
    requires
        0 <= i < v.len(),
        !v[i],
    ensures
        count_false(v.update(i, true)) + 1 == count_false(v),
    decreases v.len(),
{
    if i == v.len() - 1 {
        assert(v.update(i, true).drop_last() =~= v.drop_last());
    } else {
        lemma_count_false_set(v.drop_last(), i);
        assert(v.update(i, true).drop_last() =~= v.drop_last().update(i, true));
    }
}


// ---------- the chain of extended types ----------

/// The first indices in `all` of the types that `names` resolve to, in the
/// order of `names`; names that resolve to no type are left out.
pub open spec fn parent_indices(all: Seq<TypeView>, names: Seq<Seq<char>>) -> Seq<int>
    decreases names.len(),
{
    if names.len() == 0 {
        Seq::empty()
    } else {
        parent_indices(all, names.drop_last()) + match first_index_of(all, names.last()) {
            Some(i) => seq![i],
            None => Seq::<int>::empty(),
        }
    }
}

/// Every entry of `stack` is an index below `n`.
pub open spec fn valid_stack(stack: Seq<int>, n: int) -> bool {
    forall|k: int| 0 <= k < stack.len() ==> 0 <= #[trigger] stack[k] < n
}

/// The entries of an index vector as integers.
pub open spec fn ints(s: Seq<usize>) -> Seq<int> {
    s.map_values(|x: usize| x as int)
}

/// Resolved parent indices are indices of `all`.
pub proof fn lemma_parent_indices_valid(all: Seq<TypeView>, names: Seq<Seq<char>>)
    ensures
        valid_stack(parent_indices(all, names), all.len() as int),
    decreases names.len(),
{
    if names.len() > 0 {
        lemma_parent_indices_valid(all, names.drop_last());
        lemma_first_index_of(all, names.last());
    }
}

/// The breadth-first walk up EXTENDS: the front of `queue` is taken first;
/// a type not yet visited is listed, marked, and its parents are queued at
/// the back in their declared order, so all parents come before any
/// grandparent.
pub open spec fn chain_bfs(all: Seq<TypeView>, visited: Seq<bool>, queue: Seq<int>) -> Seq<int>
    decreases count_false(visited), queue.len(),
    when visited.len() == all.len() && valid_stack(queue, all.len() as int)
{
    if queue.len() == 0 {
        Seq::empty()
    } else {
        let i = queue.first();
        if visited[i] {
            chain_bfs(all, visited, queue.drop_first())
        } else {
            proof {
                lemma_count_false_set(visited, i);
            }
            seq![i] + chain_bfs(
                all,
                visited.update(i, true),
                queue.drop_first() + parent_indices(all, all[i].extends_parents),
            )
        }
    }
}

/// Before the walk only the name of the starting type counts as visited.
pub open spec fn initial_visited(all: Seq<TypeView>, t: TypeView) -> Seq<bool> {
    let none = Seq::new(all.len(), |j: int| false);
    match first_index_of(all, t.name) {
        Some(k) => none.update(k, true),
        None => none,
    }
}

/// The chain of `t`: `t` itself, then each type reached through EXTENDS,
/// once per name, in breadth-first order.
pub open spec fn type_chain(all: Seq<TypeView>, t: TypeView) -> Seq<TypeView> {
    seq![t] + chain_bfs(all, initial_visited(all, t), parent_indices(all, t.extends_parents)).map_values(
        |i: int| all[i],
    )
}

fn parent_index_vec(all_types: &Vec<HubType>, names: &Vec<String>) -> (r: Vec<usize>)
    ensures
        ints(r@) == parent_indices(all_types@.map_values(|t: HubType| t@), strings_view(names@)),
{
    let ghost all = all_types@.map_values(|t: HubType| t@);
    let ghost sv = strings_view(names@);
    let mut r: Vec<usize> = Vec::new();
    let mut k: usize = 0;
    assert(ints(r@) =~= parent_indices(all, sv.take(0)));
    while k < names.len()
        invariant
            k <= names.len(),
            all == all_types@.map_values(|t: HubType| t@),
            sv == strings_view(names@),
            ints(r@) == parent_indices(all, sv.take(k as int)),
        decreases names.len() - k,
    {
        let found = find_type_index(all_types, &names[k]);
        proof {
            lemma_first_index_of(all, names@[k as int]@);
            assert(sv.take(k + 1).drop_last() =~= sv.take(k as int));
            assert(sv.take(k + 1).last() == names@[k as int]@);
        }
        match found {
            Some(i) => {
                let ghost before = r@;
                r.push(i);
                assert(ints(r@) =~= ints(before) + seq![i as int]);
            },
            None => {
                assert(ints(r@) =~= ints(r@) + Seq::<int>::empty());
            },
        }
        k = k + 1;
    }
    assert(sv.take(names.len() as int) =~= sv);
    r
}

/// The chain of `hub_type` among `all_types`: the type itself, then every
/// type reached through EXTENDS, each name once, breadth first.
pub fn collect_type_chain(hub_type: &HubType, all_types: &Vec<HubType>) -> (r: Vec<HubType>)
    ensures
        r@.map_values(|t: HubType| t@) == type_chain(all_types@.map_values(|t: HubType| t@), hub_type@),
{
    let ghost all = all_types@.map_values(|t: HubType| t@);
    let mut visited: Vec<bool> = Vec::new();
    let mut j: usize = 0;
    while j < all_types.len()
        invariant
            j <= all_types.len(),
            visited@.len() == j,
            forall|k: int| 0 <= k < j ==> !visited@[k],
        decreases all_types.len() - j,
    {
        visited.push(false);
        j = j + 1;
    }
    assert(visited@ =~= Seq::new(all.len(), |j: int| false));
    let found = find_type_index(all_types, &hub_type.name);
    proof {
        lemma_first_index_of(all, hub_type.name@);
    }
    match found {
        Some(k) => {
            visited.set(k, true);
        },
        None => {},
    }
    assert(visited@ == initial_visited(all, hub_type@));
    let mut queue = parent_index_vec(all_types, &hub_type.extends_parents);
    let mut head: usize = 0;
    let mut result: Vec<HubType> = Vec::new();
    result.push(hub_type.copy());
    let ghost target = type_chain(all, hub_type@);
    proof {
        lemma_parent_indices_valid(all, hub_type@.extends_parents);
        assert(result@.map_values(|t: HubType| t@) =~= seq![hub_type@]);
        assert(ints(queue@).skip(0) =~= ints(queue@));
    }
    while head < queue.len()
        invariant
            all == all_types@.map_values(|t: HubType| t@),
            visited@.len() == all.len(),
            head <= queue.len(),
            valid_stack(ints(queue@), all.len() as int),
            target == type_chain(all, hub_type@),
            result@.map_values(|t: HubType| t@) + chain_bfs(all, visited@, ints(queue@).skip(head as int)).map_values(
                |i: int| all[i],
            ) == target,
        decreases count_false(visited@), queue.len() - head,
    {
        let ghost vis0 = visited@;
        let ghost q0 = ints(queue@).skip(head as int);
        let ghost res0 = result@.map_values(|t: HubType| t@);
        let i = queue[head];
        head = head + 1;
        assert(q0.first() == i as int);
        assert(valid_stack(q0, all.len() as int));
        if !visited[i] {
            proof {
                lemma_count_false_set(visited@, i as int);
                lemma_parent_indices_valid(all, all[i as int].extends_parents);
            }
            visited.set(i, true);
            result.push(all_types[i].copy());
            let mut ps = parent_index_vec(all_types, &all_types[i].extends_parents);
            let ghost q1 = ints(queue@);
            let ghost psv = ints(ps@);
            queue.append(&mut ps);
            proof {
                assert(ints(queue@) =~= q1 + psv);
                assert(ints(queue@).skip(head as int) =~= q0.drop_first() + psv);
                let rest = chain_bfs(all, visited@, ints(queue@).skip(head as int));
                assert(chain_bfs(all, vis0, q0) == seq![i as int] + rest);
                assert(result@.map_values(|t: HubType| t@) =~= res0.push(all[i as int]));
                assert((seq![i as int] + rest).map_values(|x: int| all[x]) =~= seq![all[i as int]] + rest.map_values(
                    |x: int| all[x],
                ));
                assert(res0 + (seq![all[i as int]] + rest.map_values(|x: int| all[x])) =~= res0.push(all[i as int])
                    + rest.map_values(|x: int| all[x]));
            }
        } else {
            assert(ints(queue@).skip(head as int) =~= q0.drop_first());
        }
    }
    assert(ints(queue@).skip(head as int) =~= Seq::<int>::empty());
    assert(result@.map_values(|t: HubType| t@) =~= target);
    result
}

/// All types in the chain of `hub_type`: itself first, then each type it
/// extends, directly or not, once.
pub fn collect_hub_types(ws: &Workspace, hub_type: &HubType) -> (r: Vec<HubType>)
    ensures
        r@.map_values(|t: HubType| t@) == type_chain(all_types_of(ws@), hub_type@),
{
    let all_types = all_hub_types(ws);
    collect_type_chain(hub_type, &all_types)
}

// ---------- inherited fields and roles ----------

/// Something with a name under which a definition nearer the child
/// overrides one further up the chain.
pub trait Named {
    /// The overriding name.
    spec fn key(&self) -> Seq<char>;
}

impl Named for FieldView {
    open spec fn key(&self) -> Seq<char> {
        self.name
    }
}

impl Named for RoleView {
    open spec fn key(&self) -> Seq<char> {
        self.name
    }
}

/// Some entry of `s` has the name `n`.
pub open spec fn has_key<A: Named>(s: Seq<A>, n: Seq<char>) -> bool {
    exists|k: int| 0 <= k < s.len() && #[trigger] s[k].key() == n
}

/// The entries of `s` whose name no earlier entry has, in order.
pub open spec fn first_of_each<A: Named>(s: Seq<A>) -> Seq<A>
    decreases s.len(),
{
    if s.len() == 0 {
        Seq::empty()
    } else {
        let d = first_of_each(s.drop_last());
        if has_key(s.drop_last(), s.last().key()) {
            d
        } else {
            d.push(s.last())
        }
    }
}

/// The first entry of `s` named `n`.
pub open spec fn find_named<A: Named>(s: Seq<A>, n: Seq<char>) -> Option<A>
    decreases s.len(),
{
    if s.len() == 0 {
        None
    } else {
        let r = find_named(s.drop_last(), n);
        if r is Some {
            r
        } else if s.last().key() == n {
            Some(s.last())
        } else {
            None
        }
    }
}

/// The fields of a chain of types, type by type.
pub open spec fn chain_fields(chain: Seq<TypeView>) -> Seq<FieldView>
    decreases chain.len(),
{
    if chain.len() == 0 {
        Seq::empty()
    } else {
        chain_fields(chain.drop_last()) + chain.last().fields
    }
}

/// The roles of a chain of types, type by type.
pub open spec fn chain_roles(chain: Seq<TypeView>) -> Seq<RoleView>
    decreases chain.len(),
{
    if chain.len() == 0 {
        Seq::empty()
    } else {
        chain_roles(chain.drop_last()) + chain.last().roles
    }
}

proof fn lemma_has_key_push<A: Named>(s: Seq<A>, x: A, n: Seq<char>)
    ensures
        has_key(s.push(x), n) <==> has_key(s, n) || x.key() == n,
{
    let t = s.push(x);
    if has_key(t, n) {
        let k = choose|k: int| 0 <= k < t.len() && #[trigger] t[k].key() == n;
        if k < s.len() {
            assert(s[k] == t[k]);
        }
    }
    if has_key(s, n) {
        let k = choose|k: int| 0 <= k < s.len() && #[trigger] s[k].key() == n;
        assert(t[k] == s[k]);
    }
    if x.key() == n {
        assert(t[s.len() as int] == x);
    }
}

/// Keeping the first entry of each name keeps every name.
pub proof fn lemma_first_of_each_keys<A: Named>(s: Seq<A>, n: Seq<char>)
    ensures
        has_key(first_of_each(s), n) == has_key(s, n),
    decreases s.len(),
{
    if s.len() > 0 {
        let p = s.drop_last();
        lemma_first_of_each_keys(p, n);
        assert(s =~= p.push(s.last()));
        lemma_has_key_push(p, s.last(), n);
        lemma_has_key_push(first_of_each(p), s.last(), n);
        if has_key(p, s.last().key()) && s.last().key() == n {
            assert(has_key(p, n));
        }
    }
}

/// `find_named` finds something exactly when the name occurs, and what it
/// finds has the name.
pub proof fn lemma_find_named<A: Named>(s: Seq<A>, n: Seq<char>)
    ensures
        find_named(s, n) is Some <==> has_key(s, n),
        find_named(s, n) matches Some(x) ==> x.key() == n,
    decreases s.len(),
{
    if s.len() > 0 {
        let p = s.drop_last();
        lemma_find_named(p, n);
        assert(s =~= p.push(s.last()));
        lemma_has_key_push(p, s.last(), n);
    }
}

/// Looking up a name in a concatenation looks in the first part first.
pub proof fn lemma_find_named_append<A: Named>(a: Seq<A>, b: Seq<A>, n: Seq<char>)
    ensures
        find_named(a + b, n) == if find_named(a, n) is Some {
            find_named(a, n)
        } else {
            find_named(b, n)
        },
    decreases b.len(),
{
    if b.len() == 0 {
        assert(a + b =~= a);
    } else {
        lemma_find_named_append(a, b.drop_last(), n);
        assert((a + b).drop_last() =~= a + b.drop_last());
        assert((a + b).last() == b.last());
    }
}

/// Looking a name up among the first entries of each name finds what
/// looking it up in the whole sequence finds.
pub proof fn lemma_find_first_of_each<A: Named>(s: Seq<A>, n: Seq<char>)
    ensures
        find_named(first_of_each(s), n) == find_named(s, n),
    decreases s.len(),
{
    if s.len() > 0 {
        let p = s.drop_last();
        let l = s.last();
        lemma_find_first_of_each(p, n);
        lemma_find_named(p, n);
        if has_key(p, l.key()) {
            if find_named(p, n) is None {
                assert(l.key() != n);
            }
        } else {
            let d = first_of_each(p);
            assert(d.push(l).drop_last() =~= d);
            assert(d.push(l).last() == l);
        }
    }
}

/// The fields of a concatenation of chains.
pub proof fn lemma_chain_fields_append(a: Seq<TypeView>, b: Seq<TypeView>)
    ensures
        chain_fields(a + b) == chain_fields(a) + chain_fields(b),
    decreases b.len(),
{
    if b.len() == 0 {
        assert(a + b =~= a);
        assert(chain_fields(a) + chain_fields(b) =~= chain_fields(a));
    } else {
        lemma_chain_fields_append(a, b.drop_last());
        assert((a + b).drop_last() =~= a + b.drop_last());
        assert((a + b).last() == b.last());
        assert(chain_fields(a + b) =~= chain_fields(a) + chain_fields(b));
    }
}

/// The roles of a concatenation of chains.
pub proof fn lemma_chain_roles_append(a: Seq<TypeView>, b: Seq<TypeView>)
    ensures
        chain_roles(a + b) == chain_roles(a) + chain_roles(b),
    decreases b.len(),
{
    if b.len() == 0 {
        assert(a + b =~= a);
        assert(chain_roles(a) + chain_roles(b) =~= chain_roles(a));
    } else {
        lemma_chain_roles_append(a, b.drop_last());
        assert((a + b).drop_last() =~= a + b.drop_last());
        assert((a + b).last() == b.last());
        assert(chain_roles(a + b) =~= chain_roles(a) + chain_roles(b));
    }
}

/// Whether some field of `v` is named `name`.
pub fn has_field_named(v: &Vec<HubFieldDef>, name: &String) -> (b: bool)
    ensures
        b == has_key(v@.map_values(|f: HubFieldDef| f@), name@),
{
    let ghost m = v@.map_values(|f: HubFieldDef| f@);
    let mut i: usize = 0;
    while i < v.len()
        invariant
            i <= v.len(),
            m == v@.map_values(|f: HubFieldDef| f@),
            forall|j: int| 0 <= j < i ==> #[trigger] m[j].key() != name@,
        decreases v.len() - i,
    {
        if v[i].name == *name {
            assert(m[i as int].key() == name@);
            return true;
        }
        i = i + 1;
    }
    false
}

/// Whether some role of `v` is named `name`.
pub fn has_role_named(v: &Vec<HubRoleDef>, name: &String) -> (b: bool)
    ensures
        b == has_key(v@.map_values(|r: HubRoleDef| r@), name@),
{
    let ghost m = v@.map_values(|r: HubRoleDef| r@);
    let mut i: usize = 0;
    while i < v.len()
        invariant
            i <= v.len(),
            m == v@.map_values(|r: HubRoleDef| r@),
            forall|j: int| 0 <= j < i ==> #[trigger] m[j].key() != name@,
        decreases v.len() - i,
    {
        if v[i].name == *name {
            assert(m[i as int].key() == name@);
            return true;
        }
        i = i + 1;
    }
    false
}

/// The fields of `chain`, the first definition of each name kept.
pub fn merged_fields(chain: &Vec<HubType>) -> (r: Vec<HubFieldDef>)
    ensures
        r@.map_values(|f: HubFieldDef| f@) == first_of_each(chain_fields(chain@.map_values(|t: HubType| t@))),
{
    let ghost cv = chain@.map_values(|t: HubType| t@);
    let mut result: Vec<HubFieldDef> = Vec::new();
    let mut c: usize = 0;
    assert(chain_fields(cv.take(0)) =~= Seq::<FieldView>::empty());
    assert(result@.map_values(|f: HubFieldDef| f@) =~= first_of_each(Seq::<FieldView>::empty()));
    while c < chain.len()
        invariant
            c <= chain.len(),
            cv == chain@.map_values(|t: HubType| t@),
            result@.map_values(|f: HubFieldDef| f@) == first_of_each(chain_fields(cv.take(c as int))),
        decreases chain.len() - c,
    {
        let fields = &chain[c].fields;
        let ghost base = chain_fields(cv.take(c as int));
        let ghost fv = fields@.map_values(|f: HubFieldDef| f@);
        let mut f: usize = 0;
        assert(base + fv.take(0) =~= base);
        while f < fields.len()
            invariant
                f <= fields.len(),
                fields == &chain@[c as int].fields,
                fv == fields@.map_values(|f: HubFieldDef| f@),
                result@.map_values(|f: HubFieldDef| f@) == first_of_each(base + fv.take(f as int)),
            decreases fields.len() - f,
        {
            let ghost flat = base + fv.take(f as int);
            let ghost r0 = result@;
            proof {
                assert((base + fv.take(f + 1)).drop_last() =~= flat);
                assert((base + fv.take(f + 1)).last() == fv[f as int]);
                lemma_first_of_each_keys(flat, fv[f as int].key());
            }
            if !has_field_named(&result, &fields[f].name) {
                result.push(fields[f].copy());
                assert(result@.map_values(|f: HubFieldDef| f@) =~= r0.map_values(|f: HubFieldDef| f@).push(fv[f as int]));
            }
            f = f + 1;
        }
        proof {
            assert(fv.take(fields.len() as int) =~= fv);
            assert(cv.take(c + 1).drop_last() =~= cv.take(c as int));
            assert(cv.take(c + 1).last() == cv[c as int]);
        }
        c = c + 1;
    }
    assert(cv.take(chain.len() as int) =~= cv);
    result
}

/// The roles of `chain`, the first definition of each name kept.
pub fn merged_roles(chain: &Vec<HubType>) -> (r: Vec<HubRoleDef>)
    ensures
        r@.map_values(|x: HubRoleDef| x@) == first_of_each(chain_roles(chain@.map_values(|t: HubType| t@))),
{
    let ghost cv = chain@.map_values(|t: HubType| t@);
    let mut result: Vec<HubRoleDef> = Vec::new();
    let mut c: usize = 0;
    assert(chain_roles(cv.take(0)) =~= Seq::<RoleView>::empty());
    assert(result@.map_values(|x: HubRoleDef| x@) =~= first_of_each(Seq::<RoleView>::empty()));
    while c < chain.len()
        invariant
            c <= chain.len(),
            cv == chain@.map_values(|t: HubType| t@),
            result@.map_values(|x: HubRoleDef| x@) == first_of_each(chain_roles(cv.take(c as int))),
        decreases chain.len() - c,
    {
        let roles = &chain[c].roles;
        let ghost base = chain_roles(cv.take(c as int));
        let ghost rv = roles@.map_values(|x: HubRoleDef| x@);
        let mut f: usize = 0;
        assert(base + rv.take(0) =~= base);
        while f < roles.len()
            invariant
                f <= roles.len(),
                roles == &chain@[c as int].roles,
                rv == roles@.map_values(|x: HubRoleDef| x@),
                result@.map_values(|x: HubRoleDef| x@) == first_of_each(base + rv.take(f as int)),
            decreases roles.len() - f,
        {
            let ghost flat = base + rv.take(f as int);
            let ghost r0 = result@;
            proof {
                assert((base + rv.take(f + 1)).drop_last() =~= flat);
                assert((base + rv.take(f + 1)).last() == rv[f as int]);
                lemma_first_of_each_keys(flat, rv[f as int].key());
            }
            if !has_role_named(&result, &roles[f].name) {
                result.push(roles[f].copy());
                assert(result@.map_values(|x: HubRoleDef| x@) =~= r0.map_values(|x: HubRoleDef| x@).push(rv[f as int]));
            }
            f = f + 1;
        }
        proof {
            assert(rv.take(roles.len() as int) =~= rv);
            assert(cv.take(c + 1).drop_last() =~= cv.take(c as int));
            assert(cv.take(c + 1).last() == cv[c as int]);
        }
        c = c + 1;
    }
    assert(cv.take(chain.len() as int) =~= cv);
    result
}

/// The chain of `hub_type` in the workspace `ws`.
pub open spec fn chain_in(ws: Seq<crate::model::FileView>, t: TypeView) -> Seq<TypeView> {
    type_chain(all_types_of(ws), t)
}

/// All fields of `hub_type` with those it inherits through EXTENDS; a
/// definition nearer the type overrides one of the same name further up.
pub fn hub_type_all_fields(ws: &Workspace, hub_type: &HubType) -> (r: Vec<HubFieldDef>)
    ensures
        r@.map_values(|f: HubFieldDef| f@) == first_of_each(chain_fields(chain_in(ws@, hub_type@))),
{
    let chain = collect_hub_types(ws, hub_type);
    merged_fields(&chain)
}

/// All roles of `hub_type` with those it inherits through EXTENDS; a
/// definition nearer the type overrides one of the same name further up.
pub fn hub_type_all_roles(ws: &Workspace, hub_type: &HubType) -> (r: Vec<HubRoleDef>)
    ensures
        r@.map_values(|x: HubRoleDef| x@) == first_of_each(chain_roles(chain_in(ws@, hub_type@))),
{
    let chain = collect_hub_types(ws, hub_type);
    merged_roles(&chain)
}

/// The view of an optional field definition.
pub open spec fn opt_field_view(o: Option<HubFieldDef>) -> Option<FieldView> {
    match o {
        Some(f) => Some(f@),
        None => None,
    }
}

/// The view of an optional role definition.
pub open spec fn opt_role_view(o: Option<HubRoleDef>) -> Option<RoleView> {
    match o {
        Some(x) => Some(x@),
        None => None,
    }
}

/// The first field named `name` in `chain`, type by type.
pub fn first_field_in(chain: &Vec<HubType>, name: &str) -> (r: Option<HubFieldDef>)
    ensures
        opt_field_view(r) == find_named(chain_fields(chain@.map_values(|t: HubType| t@)), name@),
{
    let ghost cv = chain@.map_values(|t: HubType| t@);
    let mut c: usize = 0;
    assert(chain_fields(cv.take(0)) =~= Seq::<FieldView>::empty());
    while c < chain.len()
        invariant
            c <= chain.len(),
            cv == chain@.map_values(|t: HubType| t@),
            find_named(chain_fields(cv.take(c as int)), name@) is None,
        decreases chain.len() - c,
    {
        let fields = &chain[c].fields;
        let ghost base = chain_fields(cv.take(c as int));
        let ghost fv = fields@.map_values(|f: HubFieldDef| f@);
        let mut f: usize = 0;
        assert(base + fv.take(0) =~= base);
        proof {
            assert(cv.take(c + 1).drop_last() =~= cv.take(c as int));
            assert(cv.take(c + 1).last() == cv[c as int]);
        }
        while f < fields.len()
            invariant
                f <= fields.len(),
                c < chain.len(),
                cv == chain@.map_values(|t: HubType| t@),
                fields == &chain@[c as int].fields,
                fv == fields@.map_values(|f: HubFieldDef| f@),
                base == chain_fields(cv.take(c as int)),
                chain_fields(cv.take(c + 1)) == base + fv,
                find_named(base + fv.take(f as int), name@) is None,
            decreases fields.len() - f,
        {
            let ghost flat = base + fv.take(f as int);
            proof {
                assert((base + fv.take(f + 1)).drop_last() =~= flat);
                assert((base + fv.take(f + 1)).last() == fv[f as int]);
            }
            if str_eq(fields[f].name.as_str(), name) {
                proof {
                    let head = base + fv.take(f + 1);
                    let tail = fv.skip(f + 1) + chain_fields(cv.skip(c + 1));
                    lemma_chain_fields_append(cv.take(c + 1), cv.skip(c + 1));
                    assert(cv.take(c + 1) + cv.skip(c + 1) =~= cv);
                    assert(chain_fields(cv) =~= head + tail);
                    lemma_find_named_append(head, tail, name@);
                }
                return Some(fields[f].copy());
            }
            f = f + 1;
        }
        assert(fv.take(fields.len() as int) =~= fv);
        c = c + 1;
    }
    assert(cv.take(chain.len() as int) =~= cv);
    None
}

/// The first role named `name` in `chain`, type by type.
pub fn first_role_in(chain: &Vec<HubType>, name: &str) -> (r: Option<HubRoleDef>)
    ensures
        opt_role_view(r) == find_named(chain_roles(chain@.map_values(|t: HubType| t@)), name@),
{
    let ghost cv = chain@.map_values(|t: HubType| t@);
    let mut c: usize = 0;
    assert(chain_roles(cv.take(0)) =~= Seq::<RoleView>::empty());
    while c < chain.len()
        invariant
            c <= chain.len(),
            cv == chain@.map_values(|t: HubType| t@),
            find_named(chain_roles(cv.take(c as int)), name@) is None,
        decreases chain.len() - c,
    {
        let roles = &chain[c].roles;
        let ghost base = chain_roles(cv.take(c as int));
        let ghost rv = roles@.map_values(|x: HubRoleDef| x@);
        let mut f: usize = 0;
        assert(base + rv.take(0) =~= base);
        proof {
            assert(cv.take(c + 1).drop_last() =~= cv.take(c as int));
            assert(cv.take(c + 1).last() == cv[c as int]);
        }
        while f < roles.len()
            invariant
                f <= roles.len(),
                c < chain.len(),
                cv == chain@.map_values(|t: HubType| t@),
                roles == &chain@[c as int].roles,
                rv == roles@.map_values(|x: HubRoleDef| x@),
                base == chain_roles(cv.take(c as int)),
                chain_roles(cv.take(c + 1)) == base + rv,
                find_named(base + rv.take(f as int), name@) is None,
            decreases roles.len() - f,
        {
            let ghost flat = base + rv.take(f as int);
            proof {
                assert((base + rv.take(f + 1)).drop_last() =~= flat);
                assert((base + rv.take(f + 1)).last() == rv[f as int]);
            }
            if str_eq(roles[f].name.as_str(), name) {
                proof {
                    let head = base + rv.take(f + 1);
                    let tail = rv.skip(f + 1) + chain_roles(cv.skip(c + 1));
                    lemma_chain_roles_append(cv.take(c + 1), cv.skip(c + 1));
                    assert(cv.take(c + 1) + cv.skip(c + 1) =~= cv);
                    assert(chain_roles(cv) =~= head + tail);
                    lemma_find_named_append(head, tail, name@);
                }
                return Some(roles[f].copy());
            }
            f = f + 1;
        }
        assert(rv.take(roles.len() as int) =~= rv);
        c = c + 1;
    }
    assert(cv.take(chain.len() as int) =~= cv);
    None
}

/// The field named `name` that `hub_type` has or inherits: the definition
/// nearest the type in its chain.
pub fn hub_type_field_by_name(ws: &Workspace, hub_type: &HubType, name: &str) -> (r: Option<HubFieldDef>)
    ensures
        opt_field_view(r) == find_named(chain_fields(chain_in(ws@, hub_type@)), name@),
{
    let chain = collect_hub_types(ws, hub_type);
    first_field_in(&chain, name)
}

/// The role named `name` that `hub_type` has or inherits: the definition
/// nearest the type in its chain.
pub fn hub_type_role_by_name(ws: &Workspace, hub_type: &HubType, name: &str) -> (r: Option<HubRoleDef>)
    ensures
        opt_role_view(r) == find_named(chain_roles(chain_in(ws@, hub_type@)), name@),
{
    let chain = collect_hub_types(ws, hub_type);
    first_role_in(&chain, name)
}

// ---------- laws of inheritance ----------

/// Looking a field up by name gives the field that the list of all fields
/// holds under that name.
pub proof fn law_field_by_name_matches_all_fields(ws: Seq<crate::model::FileView>, t: TypeView, name: Seq<char>)
    ensures
        find_named(first_of_each(chain_fields(chain_in(ws, t))), name) == find_named(
            chain_fields(chain_in(ws, t)),
            name,
        ),
{
    lemma_find_first_of_each(chain_fields(chain_in(ws, t)), name);
}

/// Looking a role up by name gives the role that the list of all roles
/// holds under that name.
pub proof fn law_role_by_name_matches_all_roles(ws: Seq<crate::model::FileView>, t: TypeView, name: Seq<char>)
    ensures
        find_named(first_of_each(chain_roles(chain_in(ws, t))), name) == find_named(
            chain_roles(chain_in(ws, t)),
            name,
        ),
{
    lemma_find_first_of_each(chain_roles(chain_in(ws, t)), name);
}

/// No two entries kept by `first_of_each` share a name.
pub proof fn lemma_first_of_each_distinct<A: Named>(s: Seq<A>)
    ensures
        forall|i: int, j: int|
            0 <= i < j < first_of_each(s).len() ==> #[trigger] first_of_each(s)[i].key() != #[trigger] first_of_each(
                s,
            )[j].key(),
    decreases s.len(),
{
    if s.len() > 0 {
        let p = s.drop_last();
        lemma_first_of_each_distinct(p);
        lemma_first_of_each_keys(p, s.last().key());
        let d = first_of_each(p);
        if !has_key(p, s.last().key()) {
            assert forall|i: int, j: int| 0 <= i < j < d.push(s.last()).len() implies #[trigger] d.push(s.last())[i].key()
                != #[trigger] d.push(s.last())[j].key() by {
                if j == d.len() {
                    assert(d.push(s.last())[i] == d[i]);
                } else {
                    assert(d.push(s.last())[i] == d[i] && d.push(s.last())[j] == d[j]);
                }
            }
        }
    }
}

/// The inherited fields of a type never list two fields of one name.
pub proof fn law_all_fields_distinct(ws: Seq<crate::model::FileView>, t: TypeView)
    ensures
        forall|i: int, j: int|
            0 <= i < j < first_of_each(chain_fields(chain_in(ws, t))).len() ==> #[trigger] first_of_each(
                chain_fields(chain_in(ws, t)),
            )[i].name != #[trigger] first_of_each(chain_fields(chain_in(ws, t)))[j].name,
{
    let s = chain_fields(chain_in(ws, t));
    lemma_first_of_each_distinct(s);
    assert forall|i: int, j: int| 0 <= i < j < first_of_each(s).len() implies #[trigger] first_of_each(s)[i].name
        != #[trigger] first_of_each(s)[j].name by {
        assert(first_of_each(s)[i].key() != first_of_each(s)[j].key());
    }
}

/// The inherited roles of a type never list two roles of one name.
pub proof fn law_all_roles_distinct(ws: Seq<crate::model::FileView>, t: TypeView)
    ensures
        forall|i: int, j: int|
            0 <= i < j < first_of_each(chain_roles(chain_in(ws, t))).len() ==> #[trigger] first_of_each(
                chain_roles(chain_in(ws, t)),
            )[i].name != #[trigger] first_of_each(chain_roles(chain_in(ws, t)))[j].name,
{
    let s = chain_roles(chain_in(ws, t));
    lemma_first_of_each_distinct(s);
    assert forall|i: int, j: int| 0 <= i < j < first_of_each(s).len() implies #[trigger] first_of_each(s)[i].name
        != #[trigger] first_of_each(s)[j].name by {
        assert(first_of_each(s)[i].key() != first_of_each(s)[j].key());
    }
}

/// A field that a type declares itself overrides any inherited field of
/// the same name.
pub proof fn law_own_field_overrides(ws: Seq<crate::model::FileView>, t: TypeView, name: Seq<char>)
    requires
        has_key(t.fields, name),
    ensures
        find_named(chain_fields(chain_in(ws, t)), name) == find_named(t.fields, name),
{
    let chain = chain_in(ws, t);
    let rest = chain.skip(1);
    assert(chain =~= seq![t] + rest);
    lemma_chain_fields_append(seq![t], rest);
    assert(seq![t].drop_last() =~= Seq::<TypeView>::empty());
    assert(seq![t].last() == t);
    assert(chain_fields(Seq::<TypeView>::empty()) =~= Seq::empty());
    assert(chain_fields(Seq::<TypeView>::empty()) + t.fields =~= t.fields);
    assert(chain_fields(seq![t]) =~= t.fields);
    lemma_find_named(t.fields, name);
    lemma_find_named_append(t.fields, chain_fields(rest), name);
}

/// A role that a type declares itself overrides any inherited role of the
/// same name.
pub proof fn law_own_role_overrides(ws: Seq<crate::model::FileView>, t: TypeView, name: Seq<char>)
    requires
        has_key(t.roles, name),
    ensures
        find_named(chain_roles(chain_in(ws, t)), name) == find_named(t.roles, name),
{
    let chain = chain_in(ws, t);
    let rest = chain.skip(1);
    assert(chain =~= seq![t] + rest);
    lemma_chain_roles_append(seq![t], rest);
    assert(seq![t].drop_last() =~= Seq::<TypeView>::empty());
    assert(seq![t].last() == t);
    assert(chain_roles(Seq::<TypeView>::empty()) =~= Seq::empty());
    assert(chain_roles(Seq::<TypeView>::empty()) + t.roles =~= t.roles);
    assert(chain_roles(seq![t]) =~= t.roles);
    lemma_find_named(t.roles, name);
    lemma_find_named_append(t.roles, chain_roles(rest), name);
}

} // verus!
