//! Planning a move of dropped items into a fence's folder. The items are
//! checked first: each must still exist and must not be the target folder
//! or a folder that holds it. Items already directly in the target are left
//! where they are, an item dropped twice moves once, and of items nested in
//! one another only the outermost moves. Each item then gets a name in the
//! target that is free on disk and not given to an earlier item: its own
//! name, else `name (2).ext`, `name (3).ext`, ….

use vstd::prelude::*;
use crate::ids::{is_hyphenated_uuid, random_uuid_text};
use crate::listing::lowercase_of;
use crate::names::{numbered_file_name, numbered_name_text};
use crate::paths::{name_extension, name_stem, path_extension, path_file_stem, plain_file_name};
use crate::selection::PathSet;
use crate::text::str_equal;

verus! {

/// A dropped item, as the file system answered for it.
pub struct MoveSource {
    /// The item's path as dropped.
    pub path: String,
    /// Whether the item still exists.
    pub exists: bool,
    /// The components of the item's canonical path, or the text of the
    /// error that finding it gave.
    pub canonical: Result<Vec<String>, String>,
    /// The text two canonical paths are compared by to find an item dropped
    /// twice (lower case where the platform ignores case).
    pub identity_key: String,
    /// The file name of the dropped path, if it has one.
    pub file_name: Option<String>,
}

/// One planned move: the item, and the name it gets in the target folder.
pub struct PlannedMove {
    pub source: String,
    pub destination_name: String,
}

pub open spec fn components(c: Seq<String>) -> Seq<Seq<char>> {
    c.map_values(|s: String| s@)
}

/// Whether the path `prefix` is the path `path` or one of its ancestors
/// (`Path::starts_with`, component by component).
pub open spec fn starts_with(path: Seq<Seq<char>>, prefix: Seq<Seq<char>>) -> bool {
    prefix.len() <= path.len() && path.subrange(0, prefix.len() as int) == prefix
}

fn components_equal(a: &Vec<String>, b: &Vec<String>) -> (r: bool)
    ensures
        r == (components(a@) == components(b@)),
{
    if a.len() != b.len() {
        assert(components(a@).len() != components(b@).len());
        return false;
    }
    for i in 0..a.len()
        invariant
            a@.len() == b@.len(),
            forall|j: int| 0 <= j < i ==> #[trigger] a@[j]@ == b@[j]@,
    {
        if !str_equal(a[i].as_str(), b[i].as_str()) {
            assert(components(a@)[i as int] != components(b@)[i as int]);
            return false;
        }
    }
    assert(components(a@) =~= components(b@));
    true
}

fn components_start_with(path: &Vec<String>, prefix: &Vec<String>) -> (r: bool)
    ensures
        r == starts_with(components(path@), components(prefix@)),
{
    if prefix.len() > path.len() {
        return false;
    }
    for i in 0..prefix.len()
        invariant
            prefix@.len() <= path@.len(),
            forall|j: int| 0 <= j < i ==> #[trigger] path@[j]@ == prefix@[j]@,
    {
        if !str_equal(path[i].as_str(), prefix[i].as_str()) {
            assert(components(path@).subrange(0, prefix@.len() as int)[i as int] != components(prefix@)[i as int]);
            return false;
        }
    }
    assert(components(path@).subrange(0, prefix@.len() as int) =~= components(prefix@));
    true
}

pub open spec fn missing_message() -> Seq<char> {
    "拖入的项目已经不存在："@
}

pub open spec fn self_move_message() -> Seq<char> {
    "不能把文件夹移动到它自己里面"@
}

pub open spec fn unnamed_message() -> Seq<char> {
    "无法识别项目名称："@
}

pub open spec fn no_fresh_name_message() -> Seq<char> {
    "无法生成不重复的名称"@
}

pub open spec fn canonical_of(s: MoveSource) -> Seq<Seq<char>> {
    match s.canonical {
        Ok(c) => components(c@),
        Err(_) => Seq::empty(),
    }
}

/// Why an item cannot be moved into `target`, if it cannot: it is gone,
/// its canonical path could not be found, or it is the target or holds it.
pub open spec fn source_error(s: MoveSource, target: Seq<Seq<char>>) -> Option<Seq<char>> {
    if !s.exists {
        Some(missing_message() + s.path@)
    } else {
        match s.canonical {
            Err(m) => Some(m@),
            Ok(c) => if starts_with(target, components(c@)) {
                Some(self_move_message())
            } else {
                None
            },
        }
    }
}

/// The error of the first of the first `n` items that cannot be moved.
pub open spec fn first_error(sources: Seq<MoveSource>, target: Seq<Seq<char>>, n: int) -> Option<Seq<char>>
    decreases n,
{
    if n <= 0 {
        None
    } else {
        match first_error(sources, target, n - 1) {
            Some(e) => Some(e),
            None => source_error(sources[n - 1], target),
        }
    }
}

proof fn lemma_first_error_stays(sources: Seq<MoveSource>, target: Seq<Seq<char>>, m: int, n: int)
    requires
        m <= n,
        first_error(sources, target, m) is Some,
    ensures
        first_error(sources, target, n) == first_error(sources, target, m),
    decreases n - m,
{
    if m < n {
        lemma_first_error_stays(sources, target, m, n - 1);
    }
}

/// Whether an item lies directly in the target folder already.
pub open spec fn directly_inside(s: MoveSource, target: Seq<Seq<char>>) -> bool {
    canonical_of(s).len() == target.len() + 1 && starts_with(canonical_of(s), target)
}

pub open spec fn key_among(sources: Seq<MoveSource>, kept: Seq<usize>, key: Seq<char>) -> bool {
    exists|j: int| 0 <= j < kept.len() && #[trigger] sources[kept[j] as int].identity_key@ == key
}

/// The items among the first `n` that are considered for moving: not
/// directly in the target, and each item dropped twice once.
pub open spec fn kept(sources: Seq<MoveSource>, target: Seq<Seq<char>>, n: int) -> Seq<usize>
    decreases n,
{
    if n <= 0 {
        Seq::empty()
    } else {
        let k = kept(sources, target, n - 1);
        let s = sources[n - 1];
        if directly_inside(s, target) || key_among(sources, k, s.identity_key@) {
            k
        } else {
            k.push((n - 1) as usize)
        }
    }
}

/// Whether the item at `i` lies inside another considered item.
pub open spec fn nested(sources: Seq<MoveSource>, k: Seq<usize>, i: int) -> bool {
    exists|j: int|
        0 <= j < k.len() && canonical_of(#[trigger] sources[k[j] as int]) != canonical_of(sources[i])
            && starts_with(canonical_of(sources[i]), canonical_of(sources[k[j] as int]))
}

pub open spec fn outer_prefix(sources: Seq<MoveSource>, k: Seq<usize>, m: int) -> Seq<usize>
    decreases m,
{
    if m <= 0 {
        Seq::empty()
    } else {
        let o = outer_prefix(sources, k, m - 1);
        if nested(sources, k, k[m - 1] as int) {
            o
        } else {
            o.push(k[m - 1])
        }
    }
}

/// The items that move, in the order they were dropped.
pub open spec fn outermost(sources: Seq<MoveSource>, target: Seq<Seq<char>>) -> Seq<usize> {
    let k = kept(sources, target, sources.len() as int);
    outer_prefix(sources, k, k.len() as int)
}

fn key_listed(sources: &Vec<MoveSource>, kept: &Vec<usize>, key: &String) -> (r: bool)
    requires
        forall|j: int| 0 <= j < kept@.len() ==> #[trigger] kept@[j] < sources@.len(),
    ensures
        r == key_among(sources@, kept@, key@),
{
    for j in 0..kept.len()
        invariant
            forall|q: int| 0 <= q < kept@.len() ==> #[trigger] kept@[q] < sources@.len(),
            forall|q: int| 0 <= q < j ==> #[trigger] sources@[kept@[q] as int].identity_key@ != key@,
    {
        if str_equal(sources[kept[j]].identity_key.as_str(), key.as_str()) {
            return true;
        }
    }
    false
}

/// Checks the items and picks those considered for moving.
fn check_sources(sources: &Vec<MoveSource>, target: &Vec<String>) -> (r: Result<Vec<usize>, String>)
    ensures
        match first_error(sources@, components(target@), sources@.len() as int) {
            Some(e) => r is Err && r->Err_0@ == e,
            None => r is Ok && r->Ok_0@ == kept(sources@, components(target@), sources@.len() as int),
        },
        r is Ok ==> forall|j: int| 0 <= j < r->Ok_0@.len() ==> #[trigger] r->Ok_0@[j] < sources@.len(),
        r is Ok ==> forall|j: int|
            0 <= j < r->Ok_0@.len() ==> (#[trigger] sources@[r->Ok_0@[j] as int]).canonical is Ok,
{
    let ghost t = components(target@);
    let mut chosen: Vec<usize> = Vec::new();
    for i in 0..sources.len()
        invariant
            t == components(target@),
            first_error(sources@, t, i as int) is None,
            chosen@ == kept(sources@, t, i as int),
            forall|j: int| 0 <= j < chosen@.len() ==> #[trigger] chosen@[j] < i,
            forall|j: int| 0 <= j < chosen@.len() ==> (#[trigger] sources@[chosen@[j] as int]).canonical is Ok,
    {
        let s = &sources[i];
        if !s.exists {
            let mut message = String::from_str("拖入的项目已经不存在：");
            message.append(s.path.as_str());
            proof {
                reveal_strlit("拖入的项目已经不存在：");
                lemma_first_error_stays(sources@, t, i + 1, sources@.len() as int);
            }
            return Err(message);
        }
        match &s.canonical {
            Err(m) => {
                proof {
                    lemma_first_error_stays(sources@, t, i + 1, sources@.len() as int);
                }
                return Err(m.clone());
            },
            Ok(c) => {
                if components_start_with(target, c) {
                    proof {
                        lemma_first_error_stays(sources@, t, i + 1, sources@.len() as int);
                    }
                    return Err(String::from_str("不能把文件夹移动到它自己里面"));
                }
                let inside = c.len() > target.len() && c.len() - target.len() == 1 && components_start_with(c, target);
                assert(inside == directly_inside(sources@[i as int], t));
                if !inside && !key_listed(sources, &chosen, &s.identity_key) {
                    chosen.push(i);
                }
            },
        }
    }
    Ok(chosen)
}

fn canonical_components(s: &MoveSource) -> (c: &Vec<String>)
    requires
        s.canonical is Ok,
    ensures
        components(c@) == canonical_of(*s),
{
    match &s.canonical {
        Ok(c) => c,
        Err(_) => vstd::pervasive::unreached(),
    }
}

/// Keeps, in order, the considered items that lie inside no other one.
fn outermost_of(sources: &Vec<MoveSource>, chosen: &Vec<usize>) -> (outer: Vec<usize>)
    requires
        forall|j: int| 0 <= j < chosen@.len() ==> #[trigger] chosen@[j] < sources@.len(),
        forall|j: int| 0 <= j < chosen@.len() ==> (#[trigger] sources@[chosen@[j] as int]).canonical is Ok,
    ensures
        outer@ == outer_prefix(sources@, chosen@, chosen@.len() as int),
        forall|j: int| 0 <= j < outer@.len() ==> #[trigger] outer@[j] < sources@.len(),
{
    let mut outer: Vec<usize> = Vec::new();
    for m in 0..chosen.len()
        invariant
            forall|j: int| 0 <= j < chosen@.len() ==> #[trigger] chosen@[j] < sources@.len(),
            forall|j: int| 0 <= j < chosen@.len() ==> (#[trigger] sources@[chosen@[j] as int]).canonical is Ok,
            outer@ == outer_prefix(sources@, chosen@, m as int),
            forall|j: int| 0 <= j < outer@.len() ==> #[trigger] outer@[j] < sources@.len(),
    {
        let i = chosen[m];
        let ci = canonical_components(&sources[i]);
        let mut inside = false;
        for j in 0..chosen.len()
            invariant
                forall|q: int| 0 <= q < chosen@.len() ==> #[trigger] chosen@[q] < sources@.len(),
                forall|q: int| 0 <= q < chosen@.len() ==> (#[trigger] sources@[chosen@[q] as int]).canonical is Ok,
                i < sources@.len(),
                components(ci@) == canonical_of(sources@[i as int]),
                inside == exists|q: int|
                    0 <= q < j && canonical_of(#[trigger] sources@[chosen@[q] as int]) != canonical_of(sources@[i as int])
                        && starts_with(canonical_of(sources@[i as int]), canonical_of(sources@[chosen@[q] as int])),
        {
            let cj = canonical_components(&sources[chosen[j]]);
            if !components_equal(cj, ci) && components_start_with(ci, cj) {
                inside = true;
            }
        }
        if !inside {
            outer.push(i);
        }
    }
    outer
}

/// The text a name is compared by: lower case where the platform ignores
/// case (`fold`).
pub open spec fn name_key(name: Seq<char>, fold: bool) -> Seq<char> {
    if fold {
        lowercase_of(name)
    } else {
        name
    }
}

pub open spec fn text_of(value: Option<String>) -> Option<Seq<char>> {
    match value {
        Some(v) => Some(v@),
        None => None,
    }
}

/// The `k`-th name tried for a file: its own name, then `stem (k).ext`.
pub open spec fn candidate_name(file: Seq<char>, stem: Seq<char>, ext: Option<Seq<char>>, k: int) -> Seq<char> {
    if k <= 1 {
        file
    } else {
        numbered_name_text(stem, ext, k as nat)
    }
}

/// The first name from the `k`-th on, up to the 9999th, that is not taken
/// in the target (and, with `use_reserved`, not given to an earlier item).
pub open spec fn first_free(
    file: Seq<char>,
    stem: Seq<char>,
    ext: Option<Seq<char>>,
    taken: Set<Seq<char>>,
    reserved: Set<Seq<char>>,
    fold: bool,
    k: int,
    use_reserved: bool,
) -> Option<Seq<char>>
    decreases 10000 - k,
{
    if k >= 10000 {
        None
    } else {
        let c = candidate_name(file, stem, ext, k);
        let key = name_key(c, fold);
        if !taken.contains(key) && !(use_reserved && reserved.contains(key)) {
            Some(c)
        } else {
            first_free(file, stem, ext, taken, reserved, fold, k + 1, use_reserved)
        }
    }
}

/// The name an item gets: the first name free in the target, when no
/// earlier item has it; else the first numbered name free both ways. `None`
/// when there is none, and a random name follows.
pub open spec fn chosen_name(
    file: Seq<char>,
    stem: Seq<char>,
    ext: Option<Seq<char>>,
    taken: Set<Seq<char>>,
    reserved: Set<Seq<char>>,
    fold: bool,
) -> Option<Seq<char>> {
    match first_free(file, stem, ext, taken, reserved, fold, 1, false) {
        Some(c) => if !reserved.contains(name_key(c, fold)) {
            Some(c)
        } else {
            first_free(file, stem, ext, taken, reserved, fold, 2, true)
        },
        None => None,
    }
}

/// A name made of the stem, a hyphen and a random identifier.
pub open spec fn random_name(name: Seq<char>, stem: Seq<char>) -> bool {
    exists|u: Seq<char>| is_hyphenated_uuid(u) && name == stem + "-"@ + u
}

fn key_of(name: &String, fold: bool) -> (k: String)
    ensures
        k@ == name_key(name@, fold),
{
    if fold {
        crate::listing::lowercase(name.as_str())
    } else {
        name.clone()
    }
}

fn first_free_name(
    file: &String,
    stem: &String,
    ext: &Option<String>,
    taken: &PathSet,
    reserved: &PathSet,
    fold: bool,
    start: u64,
    use_reserved: bool,
) -> (r: Option<String>)
    requires
        1 <= start <= 10000,
    ensures
        text_of(r) == first_free(file@, stem@, text_of(*ext), taken@, reserved@, fold, start as int, use_reserved),
{
    let ext_text: Option<&str> = match ext {
        Some(e) => Some(e.as_str()),
        None => None,
    };
    let mut k: u64 = start;
    while k < 10000
        invariant
            1 <= start <= k <= 10000,
            (match ext_text {
                Some(e) => Some(e@),
                None => None,
            }) == text_of(*ext),
            first_free(file@, stem@, text_of(*ext), taken@, reserved@, fold, start as int, use_reserved)
                == first_free(file@, stem@, text_of(*ext), taken@, reserved@, fold, k as int, use_reserved),
        decreases 10000 - k,
    {
        let c = if k == 1 {
            let f = file.clone();
            f
        } else {
            let n = numbered_file_name(stem.as_str(), ext_text, k);
            assert(n@ == candidate_name(file@, stem@, text_of(*ext), k as int));
            n
        };
        assert(c@ == candidate_name(file@, stem@, text_of(*ext), k as int));
        let key = key_of(&c, fold);
        if !taken.contains(key.as_str()) && !(use_reserved && reserved.contains(key.as_str())) {
            return Some(c);
        }
        k = k + 1;
    }
    None
}

/// How many random names are tried before giving up; a random identifier
/// repeats an earlier one with vanishing chance.
const RANDOM_NAME_ATTEMPTS: u32 = 16;

fn choose_name(
    file: &String,
    stem: &String,
    ext: &Option<String>,
    taken: &PathSet,
    reserved: &PathSet,
    fold: bool,
) -> (r: Option<String>)
    ensures
        match chosen_name(file@, stem@, text_of(*ext), taken@, reserved@, fold) {
            Some(c) => r is Some && r->0@ == c,
            None => r is Some ==> random_name(r->0@, stem@) && !reserved@.contains(name_key(r->0@, fold)),
        },
{
    match first_free_name(file, stem, ext, taken, reserved, fold, 1, false) {
        Some(c) => {
            let key = key_of(&c, fold);
            if !reserved.contains(key.as_str()) {
                return Some(c);
            }
            match first_free_name(file, stem, ext, taken, reserved, fold, 2, true) {
                Some(c2) => {
                    return Some(c2);
                },
                None => {},
            }
        },
        None => {},
    }
    for attempt in 0..RANDOM_NAME_ATTEMPTS
        invariant
            chosen_name(file@, stem@, text_of(*ext), taken@, reserved@, fold) is None,
    {
        let id = random_uuid_text();
        match random_destination_name(stem.as_str(), id.as_str(), reserved, fold) {
            Some(name) => {
                proof {
                    assert(random_name(name@, stem@)) by {
                        assert(is_hyphenated_uuid(id@) && name@ == stem@ + "-"@ + id@);
                    }
                }
                return Some(name);
            },
            None => {},
        }
    }
    None
}

/// The random name made of `stem` and the drawn identifier `id`, when no
/// earlier item was given it (compared by `name_key`); none when one was.
pub fn random_destination_name(stem: &str, id: &str, reserved: &PathSet, fold: bool) -> (r: Option<String>)
    ensures
        match r {
            Some(name) => name@ == stem@ + "-"@ + id@ && !reserved@.contains(name_key(name@, fold)),
            None => reserved@.contains(name_key(stem@ + "-"@ + id@, fold)),
        },
{
    let mut name = String::from_str(stem);
    name.append("-");
    name.append(id);
    proof {
        reveal_strlit("-");
    }
    let key = key_of(&name, fold);
    if reserved.contains(key.as_str()) {
        None
    } else {
        Some(name)
    }
}

pub open spec fn destination_names(plan: Seq<PlannedMove>) -> Seq<Seq<char>> {
    plan.map_values(|m: PlannedMove| m.destination_name@)
}

/// The keys of the names given so far.
pub open spec fn keys_of(names: Seq<Seq<char>>, fold: bool) -> Set<Seq<char>> {
    Set::new(|x: Seq<char>| exists|j: int| 0 <= j < names.len() && x == name_key(#[trigger] names[j], fold))
}

/// Whether an item has no usable file name.
pub open spec fn unnamed(s: MoveSource) -> bool {
    match s.file_name {
        None => true,
        Some(f) => f@.len() == 0,
    }
}

/// Whether `name` is the name the item with file name `file` gets, when the
/// platform reads the file name into `part` (stem and extension; for a plain
/// file name these are `name_stem` and `name_extension`) and the names in
/// `reserved` are given to earlier items.
pub open spec fn named_as(
    file: Seq<char>,
    part: (Seq<char>, Option<Seq<char>>),
    name: Seq<char>,
    taken: Set<Seq<char>>,
    reserved: Set<Seq<char>>,
    fold: bool,
) -> bool {
    &&& plain_file_name(file) ==> part == (name_stem(file), name_extension(file))
    &&& match chosen_name(file, part.0, part.1, taken, reserved, fold) {
        Some(c) => name == c,
        None => random_name(name, part.0) && !reserved.contains(name_key(name, fold)),
    }
}

/// Whether `plan` moves exactly the items `outer`, in order, each under the
/// name it gets.
pub open spec fn plan_matches(
    sources: Seq<MoveSource>,
    outer: Seq<usize>,
    plan: Seq<PlannedMove>,
    taken: Set<Seq<char>>,
    fold: bool,
) -> bool {
    &&& plan.len() == outer.len()
    &&& forall|p: int| 0 <= p < plan.len() ==> (#[trigger] plan[p]).source@ == sources[outer[p] as int].path@
    &&& exists|parts: Seq<(Seq<char>, Option<Seq<char>>)>|
        parts.len() == plan.len() && forall|p: int|
            0 <= p < plan.len() ==> named_as(
                sources[outer[p] as int].file_name.unwrap()@,
                #[trigger] parts[p],
                plan[p].destination_name@,
                taken,
                keys_of(destination_names(plan).take(p), fold),
                fold,
            )
}

proof fn lemma_keys_push(names: Seq<Seq<char>>, n: Seq<char>, fold: bool)
    ensures
        keys_of(names.push(n), fold) == keys_of(names, fold).insert(name_key(n, fold)),
{
    let a = keys_of(names.push(n), fold);
    let b = keys_of(names, fold).insert(name_key(n, fold));
    assert forall|x: Seq<char>| a.contains(x) <==> b.contains(x) by {
        if a.contains(x) {
            let j = choose|j: int| 0 <= j < names.push(n).len() && x == name_key(#[trigger] names.push(n)[j], fold);
            if j < names.len() {
                assert(names.push(n)[j] == names[j]);
            }
        }
        if keys_of(names, fold).contains(x) {
            let j = choose|j: int| 0 <= j < names.len() && x == name_key(#[trigger] names[j], fold);
            assert(names.push(n)[j] == names[j]);
        }
        if x == name_key(n, fold) {
            assert(names.push(n)[names.len() as int] == n);
        }
    }
    assert(a =~= b);
}

/// Whether some moving item needs a random name: after the items before it
/// got their names, as `named_as` gives them, no numbered name is free for
/// it (with its stem and extension read as the platform reads them).
pub open spec fn needs_random(
    sources: Seq<MoveSource>,
    outer: Seq<usize>,
    taken: Set<Seq<char>>,
    fold: bool,
) -> bool {
    exists|names: Seq<Seq<char>>, parts: Seq<(Seq<char>, Option<Seq<char>>)>|
        #[trigger] runs_out_at(sources, outer, taken, fold, names, parts)
}

/// The items before the `names.len()`-th got `names`, and that item finds
/// no numbered name free.
pub open spec fn runs_out_at(
    sources: Seq<MoveSource>,
    outer: Seq<usize>,
    taken: Set<Seq<char>>,
    fold: bool,
    names: Seq<Seq<char>>,
    parts: Seq<(Seq<char>, Option<Seq<char>>)>,
) -> bool {
    &&& names.len() < outer.len()
    &&& parts.len() == names.len() + 1
    &&& forall|q: int|
        0 <= q < names.len() ==> named_as(
            sources[outer[q] as int].file_name.unwrap()@,
            #[trigger] parts[q],
            names[q],
            taken,
            keys_of(names.take(q), fold),
            fold,
        )
    &&& {
        let file = sources[outer[names.len() as int] as int].file_name.unwrap()@;
        let part = parts[names.len() as int];
        &&& plain_file_name(file) ==> part == (name_stem(file), name_extension(file))
        &&& chosen_name(file, part.0, part.1, taken, keys_of(names, fold), fold) is None
    }
}

/// Plans the move of the dropped items into the folder whose canonical path
/// has the components `target`. `taken` holds the keys (see `name_key`) of
/// the names already in the target folder, and `fold_case` tells whether
/// names are compared without regard to case. The first item that is gone,
/// whose canonical path could not be found, or that is the target or holds
/// it, fails the plan with its error; so does, next, the first moving item
/// without a file name. Otherwise every moving item (see `outermost`) gets
/// the name `named_as` gives, which only a run of repeated random
/// identifiers can prevent.
pub fn plan_file_moves(
    sources: &Vec<MoveSource>,
    target: &Vec<String>,
    taken: &PathSet,
    fold_case: bool,
) -> (r: Result<Vec<PlannedMove>, String>)
    ensures
        match first_error(sources@, components(target@), sources@.len() as int) {
            Some(e) => r is Err && r->Err_0@ == e,
            None => {
                let outer = outermost(sources@, components(target@));
                if exists|p: int| 0 <= p < outer.len() && unnamed(#[trigger] sources@[outer[p] as int]) {
                    exists|p: int|
                        0 <= p < outer.len() && unnamed(#[trigger] sources@[outer[p] as int]) && (forall|q: int|
                            0 <= q < p ==> !unnamed(#[trigger] sources@[outer[q] as int])) && r is Err
                            && r->Err_0@ == unnamed_message() + sources@[outer[p] as int].path@
                } else {
                    &&& !needs_random(sources@, outer, taken@, fold_case) ==> r is Ok
                    &&& r is Ok ==> plan_matches(sources@, outer, r->Ok_0@, taken@, fold_case)
                    &&& r is Err ==> r->Err_0@ == no_fresh_name_message() && needs_random(
                        sources@,
                        outer,
                        taken@,
                        fold_case,
                    )
                }
            },
        },
{
    let chosen = match check_sources(sources, target) {
        Ok(k) => k,
        Err(e) => {
            return Err(e);
        },
    };
    let outer = outermost_of(sources, &chosen);
    let ghost outer_spec = outermost(sources@, components(target@));
    assert(outer@ == outer_spec);
    for p in 0..outer.len()
        invariant
            forall|j: int| 0 <= j < outer@.len() ==> #[trigger] outer@[j] < sources@.len(),
            forall|q: int| 0 <= q < p ==> !unnamed(#[trigger] sources@[outer@[q] as int]),
            outer@ == outer_spec,
            outer_spec == outermost(sources@, components(target@)),
            first_error(sources@, components(target@), sources@.len() as int) is None,
    {
        let s = &sources[outer[p]];
        let missing = match &s.file_name {
            None => true,
            Some(f) => f.as_str().unicode_len() == 0,
        };
        if missing {
            let mut message = String::from_str("无法识别项目名称：");
            message.append(s.path.as_str());
            proof {
                reveal_strlit("无法识别项目名称：");
                assert(unnamed(sources@[outer@[p as int] as int]));
                assert(message@ == unnamed_message() + sources@[outer@[p as int] as int].path@);
                assert(first_error(sources@, components(target@), sources@.len() as int) is None);
            }
            return Err(message);
        }
    }
    assert(first_error(sources@, components(target@), sources@.len() as int) is None);
    assert(!exists|p: int| 0 <= p < outer_spec.len() && unnamed(#[trigger] sources@[outer_spec[p] as int]));
    let mut reserved = PathSet::new();
    let mut plan: Vec<PlannedMove> = Vec::new();
    let ghost mut parts: Seq<(Seq<char>, Option<Seq<char>>)> = Seq::empty();
    for p in 0..outer.len()
        invariant
            forall|j: int| 0 <= j < outer@.len() ==> #[trigger] outer@[j] < sources@.len(),
            forall|q: int| 0 <= q < outer@.len() ==> !unnamed(#[trigger] sources@[outer@[q] as int]),
            outer@ == outer_spec,
            outer_spec == outermost(sources@, components(target@)),
            first_error(sources@, components(target@), sources@.len() as int) is None,
            plan@.len() == p,
            parts.len() == p,
            forall|q: int| 0 <= q < p ==> (#[trigger] plan@[q]).source@ == sources@[outer@[q] as int].path@,
            forall|q: int|
                0 <= q < p ==> named_as(
                    sources@[outer@[q] as int].file_name.unwrap()@,
                    #[trigger] parts[q],
                    plan@[q].destination_name@,
                    taken@,
                    keys_of(destination_names(plan@).take(q), fold_case),
                    fold_case,
                ),
            reserved@ == keys_of(destination_names(plan@), fold_case),
    {
        let s = &sources[outer[p]];
        assert(!unnamed(sources@[outer@[p as int] as int]));
        let file = match &s.file_name {
            Some(f) => f,
            None => vstd::pervasive::unreached(),
        };
        let stem = match path_file_stem(file.as_str()) {
            Some(x) => x,
            None => String::from_str("文件"),
        };
        let ext = path_extension(file.as_str());
        let name = match choose_name(file, &stem, &ext, taken, &reserved, fold_case) {
            Some(n) => n,
            None => {
                proof {
                    reveal_strlit("无法生成不重复的名称");
                    let names = destination_names(plan@);
                    let parts2 = parts.push((stem@, text_of(ext)));
                    assert forall|q: int| 0 <= q < names.len() implies named_as(
                        sources@[outer_spec[q] as int].file_name.unwrap()@,
                        #[trigger] parts2[q],
                        names[q],
                        taken@,
                        keys_of(names.take(q), fold_case),
                        fold_case,
                    ) by {
                        assert(parts2[q] == parts[q]);
                    }
                    assert(names.len() == p);
                    assert(parts2[p as int] == (stem@, text_of(ext)));
                    assert(file@ == sources@[outer_spec[p as int] as int].file_name.unwrap()@);
                    assert(chosen_name(file@, stem@, text_of(ext), taken@, reserved@, fold_case) is None);
                    assert(plain_file_name(file@) ==> parts2[p as int] == (name_stem(file@), name_extension(file@)));
                    assert(runs_out_at(sources@, outer_spec, taken@, fold_case, names, parts2));
                }
                return Err(String::from_str("无法生成不重复的名称"));
            },
        };
        let ghost before = plan@;
        let ghost part = (stem@, text_of(ext));
        assert(named_as(file@, part, name@, taken@, keys_of(destination_names(before).take(p as int), fold_case), fold_case)) by {
            assert(destination_names(before).take(p as int) =~= destination_names(before));
        }
        let key = key_of(&name, fold_case);
        reserved.insert(key);
        plan.push(PlannedMove { source: s.path.clone(), destination_name: name });
        proof {
            assert(destination_names(plan@) =~= destination_names(before).push(plan@[p as int].destination_name@));
            lemma_keys_push(destination_names(before), plan@[p as int].destination_name@, fold_case);
            assert forall|q: int| 0 <= q < p implies destination_names(plan@).take(q) =~= destination_names(before).take(q) by {
            }
            assert(destination_names(plan@).take(p as int) =~= destination_names(before));
            parts = parts.push(part);
            assert forall|q: int| 0 <= q < p + 1 implies named_as(
                sources@[outer@[q] as int].file_name.unwrap()@,
                #[trigger] parts[q],
                plan@[q].destination_name@,
                taken@,
                keys_of(destination_names(plan@).take(q), fold_case),
                fold_case,
            ) by {
                if q < p {
                    assert(plan@[q] == before[q]);
                    assert(destination_names(plan@).take(q) =~= destination_names(before).take(q));
                }
            }
        }
    }
    proof {
        assert(plan_matches(sources@, outer_spec, plan@, taken@, fold_case));
    }
    Ok(plan)
}

/// Whether path `a` is a proper ancestor of path `b`: it has fewer
/// components, and `b` begins with all of them.
pub open spec fn proper_ancestor(a: Seq<Seq<char>>, b: Seq<Seq<char>>) -> bool {
    a.len() < b.len() && forall|t: int| 0 <= t < a.len() ==> #[trigger] b[t] == a[t]
}

proof fn lemma_nested_is_ancestor(sources: Seq<MoveSource>, k: Seq<usize>, i: int)
    ensures
        nested(sources, k, i) <==> exists|j: int|
            0 <= j < k.len() && proper_ancestor(canonical_of(#[trigger] sources[k[j] as int]), canonical_of(sources[i])),
{
    let ci = canonical_of(sources[i]);
    if nested(sources, k, i) {
        let j = choose|j: int|
            0 <= j < k.len() && canonical_of(#[trigger] sources[k[j] as int]) != ci
                && starts_with(ci, canonical_of(sources[k[j] as int]));
        let cj = canonical_of(sources[k[j] as int]);
        assert forall|t: int| 0 <= t < cj.len() implies #[trigger] ci[t] == cj[t] by {
            assert(ci.subrange(0, cj.len() as int)[t] == ci[t]);
        }
        if cj.len() == ci.len() {
            assert(ci =~= cj);
        }
        assert(proper_ancestor(cj, ci));
    }
    if exists|j: int|
        0 <= j < k.len() && proper_ancestor(canonical_of(#[trigger] sources[k[j] as int]), ci) {
        let j = choose|j: int|
            0 <= j < k.len() && proper_ancestor(canonical_of(#[trigger] sources[k[j] as int]), ci);
        let cj = canonical_of(sources[k[j] as int]);
        assert(ci.subrange(0, cj.len() as int) =~= cj);
        assert(cj.len() != ci.len());
    }
}

proof fn lemma_outer_prefix_members(sources: Seq<MoveSource>, k: Seq<usize>, m: int)
    requires
        0 <= m <= k.len(),
    ensures
        forall|p: int|
            0 <= p < outer_prefix(sources, k, m).len() ==> exists|q: int|
                0 <= q < m && k[q] == #[trigger] outer_prefix(sources, k, m)[p] && !nested(sources, k, k[q] as int),
        forall|q: int|
            0 <= q < m && !nested(sources, k, #[trigger] k[q] as int) ==> outer_prefix(sources, k, m).contains(k[q]),
    decreases m,
{
    if m > 0 {
        lemma_outer_prefix_members(sources, k, m - 1);
        let prev = outer_prefix(sources, k, m - 1);
        let o = outer_prefix(sources, k, m);
        assert forall|p: int| 0 <= p < o.len() implies exists|q: int|
            0 <= q < m && k[q] == #[trigger] o[p] && !nested(sources, k, k[q] as int) by {
            if p < prev.len() {
                assert(o[p] == prev[p]);
            } else {
                assert(o[p] == k[m - 1]);
            }
        }
        assert forall|q: int| 0 <= q < m && !nested(sources, k, #[trigger] k[q] as int) implies o.contains(k[q]) by {
            if q < m - 1 {
                let p = choose|p: int| 0 <= p < prev.len() && prev[p] == k[q];
                assert(o[p] == prev[p]);
            } else {
                assert(o[o.len() - 1] == k[q]);
            }
        }
    }
}

/// Of the dropped items considered for moving (see `kept`), exactly those
/// inside no other considered item move, whatever the order they were
/// dropped in: no moving item has a proper ancestor among the considered
/// items, and every considered item without one moves.
pub proof fn law_only_outermost_items_move(sources: Seq<MoveSource>, target: Seq<Seq<char>>)
    ensures
        ({
            let k = kept(sources, target, sources.len() as int);
            let o = outermost(sources, target);
            &&& forall|p: int| 0 <= p < o.len() ==> #[trigger] k.contains(o[p])
            &&& forall|p: int, j: int|
                0 <= p < o.len() && 0 <= j < k.len() ==> !proper_ancestor(
                    canonical_of(#[trigger] sources[k[j] as int]),
                    canonical_of(sources[#[trigger] o[p] as int]),
                )
            &&& forall|j: int|
                0 <= j < k.len() && (forall|j2: int|
                    0 <= j2 < k.len() ==> !proper_ancestor(
                        canonical_of(#[trigger] sources[k[j2] as int]),
                        canonical_of(sources[k[j] as int]),
                    )) ==> o.contains(#[trigger] k[j])
        }),
{
    let k = kept(sources, target, sources.len() as int);
    let o = outermost(sources, target);
    lemma_outer_prefix_members(sources, k, k.len() as int);
    assert forall|p: int| 0 <= p < o.len() implies #[trigger] k.contains(o[p]) by {
        let q = choose|q: int| 0 <= q < k.len() && k[q] == #[trigger] o[p] && !nested(sources, k, k[q] as int);
    }
    assert forall|p: int, j: int|
        0 <= p < o.len() && 0 <= j < k.len() implies !proper_ancestor(
            canonical_of(#[trigger] sources[k[j] as int]),
            canonical_of(sources[#[trigger] o[p] as int]),
        ) by {
        let q = choose|q: int| 0 <= q < k.len() && k[q] == #[trigger] o[p] && !nested(sources, k, k[q] as int);
        lemma_nested_is_ancestor(sources, k, o[p] as int);
    }
    assert forall|j: int|
        0 <= j < k.len() && (forall|j2: int|
            0 <= j2 < k.len() ==> !proper_ancestor(
                canonical_of(#[trigger] sources[k[j2] as int]),
                canonical_of(sources[k[j] as int]),
            )) implies o.contains(#[trigger] k[j]) by {
        lemma_nested_is_ancestor(sources, k, k[j] as int);
    }
}

/// Whether an item lies directly in the folder `target`: its canonical path
/// is `target` followed by one more component.
pub open spec fn child_of(path: Seq<Seq<char>>, target: Seq<Seq<char>>) -> bool {
    path.len() == target.len() + 1 && forall|t: int| 0 <= t < target.len() ==> #[trigger] path[t] == target[t]
}

proof fn lemma_directly_inside_is_child(s: MoveSource, target: Seq<Seq<char>>)
    ensures
        directly_inside(s, target) <==> child_of(canonical_of(s), target),
{
    let c = canonical_of(s);
    if child_of(c, target) {
        assert(c.subrange(0, target.len() as int) =~= target);
    }
    if directly_inside(s, target) {
        assert forall|t: int| 0 <= t < target.len() implies #[trigger] c[t] == target[t] by {
            assert(c.subrange(0, target.len() as int)[t] == c[t]);
        }
    }
}

proof fn lemma_kept_step(sources: Seq<MoveSource>, target: Seq<Seq<char>>, n: int)
    requires
        sources.len() <= usize::MAX,
        0 < n <= sources.len(),
    ensures
        ({
            let prev = kept(sources, target, n - 1);
            let s = sources[n - 1];
            kept(sources, target, n) == if directly_inside(s, target) || key_among(sources, prev, s.identity_key@) {
                prev
            } else {
                prev.push((n - 1) as usize)
            }
        }),
{
}

proof fn lemma_kept_in_order(sources: Seq<MoveSource>, target: Seq<Seq<char>>, n: int)
    requires
        sources.len() <= usize::MAX,
        0 <= n <= sources.len(),
    ensures
        forall|j: int| 0 <= j < kept(sources, target, n).len() ==> #[trigger] kept(sources, target, n)[j] < n,
        forall|j1: int, j2: int|
            0 <= j1 < j2 < kept(sources, target, n).len() ==> #[trigger] kept(sources, target, n)[j1]
                < #[trigger] kept(sources, target, n)[j2],
    decreases n,
{
    if n > 0 {
        lemma_kept_in_order(sources, target, n - 1);
        lemma_kept_step(sources, target, n);
        let prev = kept(sources, target, n - 1);
        let k = kept(sources, target, n);
        assert forall|j: int| 0 <= j < prev.len() implies k[j] == prev[j] by {}
        assert forall|j1: int, j2: int| 0 <= j1 < j2 < k.len() implies #[trigger] k[j1] < #[trigger] k[j2] by {
            assert(k[j1] == prev[j1]);
            if j2 < prev.len() {
                assert(k[j2] == prev[j2]);
            }
        }
    }
}

proof fn lemma_kept_not_inside(sources: Seq<MoveSource>, target: Seq<Seq<char>>, n: int)
    requires
        sources.len() <= usize::MAX,
        0 <= n <= sources.len(),
    ensures
        forall|j: int|
            0 <= j < kept(sources, target, n).len() ==> !child_of(
                canonical_of(#[trigger] sources[kept(sources, target, n)[j] as int]),
                target,
            ),
    decreases n,
{
    if n > 0 {
        lemma_kept_not_inside(sources, target, n - 1);
        lemma_kept_step(sources, target, n);
        lemma_directly_inside_is_child(sources[n - 1], target);
        let prev = kept(sources, target, n - 1);
        let k = kept(sources, target, n);
        assert forall|j: int| 0 <= j < k.len() implies !child_of(canonical_of(#[trigger] sources[k[j] as int]), target) by {
            if j < prev.len() {
                assert(k[j] == prev[j]);
            }
        }
    }
}

proof fn lemma_kept_distinct(sources: Seq<MoveSource>, target: Seq<Seq<char>>, n: int)
    requires
        sources.len() <= usize::MAX,
        0 <= n <= sources.len(),
    ensures
        forall|j1: int, j2: int|
            0 <= j1 < j2 < kept(sources, target, n).len() ==> (#[trigger] sources[kept(sources, target, n)[j1] as int]).identity_key@
                != (#[trigger] sources[kept(sources, target, n)[j2] as int]).identity_key@,
    decreases n,
{
    if n > 0 {
        lemma_kept_distinct(sources, target, n - 1);
        lemma_kept_step(sources, target, n);
        let prev = kept(sources, target, n - 1);
        let k = kept(sources, target, n);
        assert forall|j1: int, j2: int| 0 <= j1 < j2 < k.len() implies (#[trigger] sources[k[j1] as int]).identity_key@
            != (#[trigger] sources[k[j2] as int]).identity_key@ by {
            assert(k[j1] == prev[j1]);
            if j2 < prev.len() {
                assert(k[j2] == prev[j2]);
            } else {
                assert(!key_among(sources, prev, sources[n - 1].identity_key@));
            }
        }
    }
}

proof fn lemma_kept_complete(sources: Seq<MoveSource>, target: Seq<Seq<char>>, n: int)
    requires
        sources.len() <= usize::MAX,
        0 <= n <= sources.len(),
    ensures
        forall|i: int|
            0 <= i < n && !child_of(canonical_of(#[trigger] sources[i]), target) ==> key_among(
                sources,
                kept(sources, target, n),
                sources[i].identity_key@,
            ),
    decreases n,
{
    if n > 0 {
        lemma_kept_complete(sources, target, n - 1);
        lemma_kept_step(sources, target, n);
        lemma_directly_inside_is_child(sources[n - 1], target);
        let prev = kept(sources, target, n - 1);
        let k = kept(sources, target, n);
        assert forall|i: int|
            0 <= i < n && !child_of(canonical_of(#[trigger] sources[i]), target) implies key_among(
            sources,
            k,
            sources[i].identity_key@,
        ) by {
            if i < n - 1 || key_among(sources, prev, sources[i].identity_key@) {
                assert(key_among(sources, prev, sources[i].identity_key@));
                let j = choose|j: int| 0 <= j < prev.len() && #[trigger] sources[prev[j] as int].identity_key@ == sources[i].identity_key@;
                assert(k[j] == prev[j]);
            } else {
                assert(k[prev.len() as int] == (n - 1) as usize);
            }
        }
    }
}

/// The dropped items considered for moving, in the order they were dropped:
/// none lies directly in the target already, no two are the same item (by
/// `identity_key`), and every item not directly in the target is among them
/// or is the same item as one of them.
pub proof fn law_considered_items_are_distinct_and_complete(sources: Seq<MoveSource>, target: Seq<Seq<char>>)
    requires
        sources.len() <= usize::MAX,
    ensures
        ({
            let k = kept(sources, target, sources.len() as int);
            &&& forall|j1: int, j2: int| 0 <= j1 < j2 < k.len() ==> #[trigger] k[j1] < #[trigger] k[j2]
            &&& forall|j: int| 0 <= j < k.len() ==> #[trigger] k[j] < sources.len()
            &&& forall|j: int| 0 <= j < k.len() ==> !child_of(canonical_of(#[trigger] sources[k[j] as int]), target)
            &&& forall|j1: int, j2: int|
                0 <= j1 < j2 < k.len() ==> (#[trigger] sources[k[j1] as int]).identity_key@ != (#[trigger] sources[k[j2] as int]).identity_key@
            &&& forall|i: int|
                0 <= i < sources.len() && !child_of(canonical_of(#[trigger] sources[i]), target) ==> exists|j: int|
                    0 <= j < k.len() && #[trigger] sources[k[j] as int].identity_key@ == sources[i].identity_key@
        }),
{
    let n = sources.len() as int;
    lemma_kept_in_order(sources, target, n);
    lemma_kept_not_inside(sources, target, n);
    lemma_kept_distinct(sources, target, n);
    lemma_kept_complete(sources, target, n);
}

} // verus!
