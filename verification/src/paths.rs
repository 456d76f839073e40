//! Unix paths as texts: their components, and the checks that keep archive
//! entries and links inside the directory that they belong to.
use vstd::prelude::*;

use crate::text::{chars_of, has_char, parts, replaced, same, same_text, trimmed_end_char};

verus! {

/// The components among the parts of a path: empty parts do not count, and a
/// `.` counts only where the path begins with it.
pub open spec fn counted(parts: Seq<Seq<char>>) -> Seq<Seq<char>>
    decreases parts.len(),
{
    if parts.len() == 0 {
        seq![]
    } else {
        let before = counted(parts.drop_last());
        if parts.last().len() == 0 || (parts.last() == "."@ && parts.len() > 1) {
            before
        } else {
            before.push(parts.last())
        }
    }
}

/// The components of a path, without the root of an absolute one.
pub open spec fn components(path: Seq<char>) -> Seq<Seq<char>> {
    counted(crate::text::split(path, '/'))
}

pub open spec fn is_absolute(path: Seq<char>) -> bool {
    path.len() > 0 && path[0] == '/'
}

pub open spec fn has_parent_step(path: Seq<char>) -> bool {
    components(path).contains(".."@)
}

/// How much deeper a run of components leads: a `..` leads up, a `.` nowhere,
/// and any other name down.
pub open spec fn climb(steps: Seq<Seq<char>>) -> int
    decreases steps.len(),
{
    if steps.len() == 0 {
        0
    } else {
        climb(steps.drop_last()) + if steps.last() == ".."@ {
            -1int
        } else if steps.last() == "."@ {
            0int
        } else {
            1int
        }
    }
}

/// Whether a walk that starts `depth` names below the top never rises above it.
pub open spec fn stays_below(depth: int, steps: Seq<Seq<char>>) -> bool {
    forall|k: int| 0 <= k <= steps.len() ==> depth + climb(#[trigger] steps.take(k)) >= 0
}

/// How many names below the top the directory lies that holds `name`. A `.` at
/// the front of the name leads nowhere.
pub open spec fn holder_depth(name: Seq<char>) -> int {
    let steps = components(name);
    if steps.len() == 0 {
        0
    } else if steps.len() > 1 && steps[0] == "."@ {
        steps.len() - 2
    } else {
        steps.len() - 1
    }
}

/// Whether the name of an archive entry is a relative path without `..` or a
/// colon.
pub open spec fn is_safe_zip_path(name: Seq<char>) -> bool {
    name.len() > 0 && name[0] != '/' && !name.contains(':') && !has_parent_step(name)
}

/// The target of a link as it is followed: without trailing NUL characters,
/// and with slashes for backslashes.
pub open spec fn link_path(target: Seq<char>) -> Seq<char> {
    crate::text::replace_char(crate::text::trim_end_char(target, '\0'), '\\', '/')
}

/// Whether the link `name` may lead to `target`: the target is relative, and
/// the walk from the directory that holds the link never rises above the top.
pub open spec fn is_safe_link(name: Seq<char>, target: Seq<char>) -> bool {
    let path = link_path(target);
    &&& path.len() > 0
    &&& path[0] != '/'
    &&& !path.contains(':')
    &&& stays_below(holder_depth(name), components(path))
}

/// Where a walk ends: the names from the top down to that place, or nothing
/// where the walk would rise above the top.
pub open spec fn walk(from: Seq<Seq<char>>, steps: Seq<Seq<char>>) -> Option<Seq<Seq<char>>>
    decreases steps.len(),
{
    if steps.len() == 0 {
        Some(from)
    } else if steps[0] == "."@ {
        walk(from, steps.drop_first())
    } else if steps[0] == ".."@ {
        if from.len() == 0 {
            None
        } else {
            walk(from.drop_last(), steps.drop_first())
        }
    } else {
        walk(from.push(steps[0]), steps.drop_first())
    }
}

/// The components of a path, without the root of an absolute one.
pub fn path_components(path: &[char]) -> (r: Vec<&[char]>)
    ensures
        r@.map_values(|p: &[char]| p@) == components(path@),
{
    let all = parts(path, '/');
    let dot = chars_of(".");
    let ghost texts = all@.map_values(|p: &[char]| p@);
    let mut out: Vec<&[char]> = Vec::new();
    let mut i: usize = 0;
    assert(texts.take(0) == Seq::<Seq<char>>::empty());
    assert(out@.map_values(|p: &[char]| p@) == counted(texts.take(0)));
    while i < all.len()
        invariant
            i <= all.len(),
            dot@ == "."@,
            texts == all@.map_values(|p: &[char]| p@),
            out@.map_values(|p: &[char]| p@) == counted(texts.take(i as int)),
        decreases all.len() - i,
    {
        let part = all[i];
        let ghost before = out@.map_values(|p: &[char]| p@);
        assert(texts.take(i + 1).drop_last() == texts.take(i as int));
        assert(texts.take(i + 1).last() == part@);
        if part.len() == 0 || (i > 0 && same(part, dot.as_slice())) {
        } else {
            out.push(part);
            assert(out@.map_values(|p: &[char]| p@) == before.push(part@));
        }
        i = i + 1;
    }
    assert(texts.take(i as int) == texts);
    out
}

/// Whether a path has a `..` among its components.
pub fn has_parent(path: &[char]) -> (r: bool)
    ensures
        r == has_parent_step(path@),
{
    let steps = path_components(path);
    let up = chars_of("..");
    let ghost texts = steps@.map_values(|p: &[char]| p@);
    let mut i: usize = 0;
    while i < steps.len()
        invariant
            i <= steps.len(),
            up@ == ".."@,
            texts == steps@.map_values(|p: &[char]| p@),
            texts == components(path@),
            forall|j: int| 0 <= j < i ==> texts[j] != ".."@,
        decreases steps.len() - i,
    {
        if same(steps[i], up.as_slice()) {
            assert(texts[i as int] == ".."@);
            return true;
        }
        i = i + 1;
    }
    false
}

/// Whether the name of an archive entry keeps it inside the archive.
pub fn safe_zip_path(name: &str) -> (r: bool)
    ensures
        r == is_safe_zip_path(name@),
{
    let chars = chars_of(name);
    let path = chars.as_slice();
    path.len() > 0 && path[0] != '/' && !has_char(path, ':') && !has_parent(path)
}

/// Whether the link `name` may lead to `target`.
pub fn safe_symlink_target(name: &str, target: &str) -> (r: bool)
    ensures
        r == is_safe_link(name@, target@),
{
    let name_chars = chars_of(name);
    let target_chars = chars_of(target);
    let path = replaced(trimmed_end_char(target_chars.as_slice(), '\0'), '\\', '/');
    if path.len() == 0 || path[0] == '/' || has_char(path.as_slice(), ':') {
        return false;
    }
    let holder = path_components(name_chars.as_slice());
    let steps = path_components(path.as_slice());
    let up = chars_of("..");
    let dot = chars_of(".");
    let ghost texts = steps@.map_values(|p: &[char]| p@);
    let start: usize = if holder.len() == 0 {
        0
    } else if holder.len() > 1 && same(holder[0], dot.as_slice()) {
        holder.len() - 2
    } else {
        holder.len() - 1
    };
    assert(start == holder_depth(name@)) by {
        let names = holder@.map_values(|p: &[char]| p@);
        assert(names.len() == holder.len());
        if holder.len() > 0 {
            assert(names[0] == holder@[0]@);
        }
    }
    let mut depth: u128 = start as u128;
    let mut i: usize = 0;
    assert(texts.take(0) == Seq::<Seq<char>>::empty());
    while i < steps.len()
        invariant
            i <= steps.len(),
            up@ == ".."@,
            dot@ == "."@,
            texts == steps@.map_values(|p: &[char]| p@),
            texts == components(path@),
            path@ == link_path(target@),
            start == holder_depth(name@),
            depth == start + climb(texts.take(i as int)),
            depth <= start + i,
            forall|k: int| 0 <= k <= i ==> start + climb(#[trigger] texts.take(k)) >= 0,
        decreases steps.len() - i,
    {
        let step = steps[i];
        assert(texts.take(i + 1).drop_last() == texts.take(i as int));
        assert(texts.take(i + 1).last() == step@);
        if same(step, up.as_slice()) {
            if depth == 0 {
                assert(start + climb(texts.take(i + 1)) < 0);
                return false;
            }
            depth = depth - 1;
        } else if !same(step, dot.as_slice()) {
            depth = depth + 1;
        }
        i = i + 1;
    }
    true
}

/// Whether a path starts at the root.
pub fn absolute(path: &str) -> (r: bool)
    ensures
        r == is_absolute(path@),
{
    let chars = chars_of(path);
    chars.len() > 0 && chars[0] == '/'
}

/// `path` below the directory `base`, as `std::path` joins them.
pub open spec fn joined(base: Seq<char>, path: Seq<char>) -> Seq<char> {
    if is_absolute(path) || base.len() == 0 {
        path
    } else if base.last() == '/' {
        base + path
    } else {
        base.push('/') + path
    }
}

/// `path` below the directory `base`.
pub fn join(base: &str, path: &str) -> (r: String)
    ensures
        r@ == joined(base@, path@),
{
    let chars = chars_of(base);
    if absolute(path) || chars.len() == 0 {
        return path.to_owned();
    }
    let mut out = base.to_owned();
    if chars[chars.len() - 1] != '/' {
        out.push('/');
    }
    out.append(path);
    out
}

/// A name below a directory adds one component to the path of the directory.
pub proof fn lemma_joined_components(base: Seq<char>, name: Seq<char>)
    requires
        name.len() > 0,
        name != "."@,
        !name.contains('/'),
    ensures
        components(joined(base, name)) == components(base).push(name),
        is_absolute(joined(base, name)) == is_absolute(base),
{
    assert(name.contains(name[0]));
    crate::text::lemma_position(name, '/');
    assert(crate::text::split(name, '/') == seq![name]);
    assert(seq![name].drop_last() == Seq::<Seq<char>>::empty());
    let none = Seq::<char>::empty();
    assert(crate::text::split(none, '/') == seq![none]);
    assert(seq![none].drop_last() == Seq::<Seq<char>>::empty());
    if base.len() == 0 {
        assert(base == none);
        assert(counted(Seq::<Seq<char>>::empty()) == Seq::<Seq<char>>::empty());
        assert(components(name) == Seq::<Seq<char>>::empty().push(name));
    } else if base.last() == '/' {
        let start = base.drop_last();
        assert(base == start.push('/') + none);
        assert(base + name == start.push('/') + name);
        crate::text::lemma_split_join(start, none, '/');
        crate::text::lemma_split_join(start, name, '/');
        let parts = crate::text::split(start, '/');
        assert((parts + seq![none]).drop_last() == parts);
        assert((parts + seq![name]).drop_last() == parts);
    } else {
        crate::text::lemma_split_join(base, name, '/');
        let parts = crate::text::split(base, '/');
        assert((parts + seq![name]).drop_last() == parts);
    }
}

/// Whether two texts are the same path, as `std::path` compares them: doubled
/// and trailing slashes and inner `.` components make no difference.
pub open spec fn is_same_path(a: Seq<char>, b: Seq<char>) -> bool {
    is_absolute(a) == is_absolute(b) && components(a) == components(b)
}

/// Whether two texts are the same path.
pub fn same_path(a: &str, b: &str) -> (r: bool)
    ensures
        r == is_same_path(a@, b@),
{
    if absolute(a) != absolute(b) {
        return false;
    }
    let a_chars = chars_of(a);
    let b_chars = chars_of(b);
    let x = path_components(a_chars.as_slice());
    let y = path_components(b_chars.as_slice());
    let ghost left = x@.map_values(|p: &[char]| p@);
    let ghost right = y@.map_values(|p: &[char]| p@);
    if x.len() != y.len() {
        assert(left.len() != right.len());
        return false;
    }
    let mut i: usize = 0;
    while i < x.len()
        invariant
            i <= x.len(),
            x.len() == y.len(),
            left == x@.map_values(|p: &[char]| p@),
            right == y@.map_values(|p: &[char]| p@),
            left == components(a@),
            right == components(b@),
            forall|j: int| 0 <= j < i ==> left[j] == right[j],
        decreases x.len() - i,
    {
        if !same(x[i], y[i]) {
            assert(left[i as int] != right[i as int]);
            return false;
        }
        assert(left[i as int] == right[i as int]);
        i = i + 1;
    }
    assert(left == right);
    true
}

proof fn lemma_climb_first(steps: Seq<Seq<char>>)
    requires
        steps.len() > 0,
    ensures
        climb(steps) == climb(seq![steps[0]]) + climb(steps.drop_first()),
    decreases steps.len(),
{
    if steps.len() == 1 {
        assert(steps == seq![steps[0]]);
        assert(climb(steps.drop_first()) == 0);
    } else {
        lemma_climb_first(steps.drop_last());
        assert(steps.drop_last().drop_first() == steps.drop_first().drop_last());
    }
}

proof fn lemma_climb_one(step: Seq<char>)
    ensures
        climb(seq![step]) == if step == ".."@ {
            -1int
        } else if step == "."@ {
            0int
        } else {
            1int
        },
{
    assert(seq![step].drop_last() == Seq::<Seq<char>>::empty());
    assert(climb(Seq::<Seq<char>>::empty()) == 0);
}

/// Counting depths and walking agree on whether the top is left.
pub proof fn lemma_walk(from: Seq<Seq<char>>, steps: Seq<Seq<char>>)
    ensures
        stays_below(from.len() as int, steps) <==> walk(from, steps) is Some,
    decreases steps.len(),
{
    let depth = from.len() as int;
    assert(climb(Seq::<Seq<char>>::empty()) == 0);
    assert(steps.take(0) == Seq::<Seq<char>>::empty());
    if steps.len() > 0 {
        reveal_strlit(".");
        reveal_strlit("..");
        assert("."@.len() == 1 && ".."@.len() == 2);
        let rest = steps.drop_first();
        let d = climb(seq![steps[0]]);
        lemma_climb_one(steps[0]);
        assert forall|k: int| 1 <= k <= steps.len() implies climb(#[trigger] steps.take(k)) == d
            + climb(rest.take(k - 1)) by {
            lemma_climb_first(steps.take(k));
            assert(steps.take(k).drop_first() == rest.take(k - 1));
        }
        assert(steps.take(1) == seq![steps[0]]);
        if depth + d >= 0 {
            assert(stays_below(depth, steps) <==> stays_below(depth + d, rest)) by {
                if stays_below(depth, steps) {
                    assert forall|k: int| 0 <= k <= rest.len() implies depth + d + climb(
                        #[trigger] rest.take(k),
                    ) >= 0 by {
                        assert(climb(steps.take(k + 1)) == d + climb(rest.take(k + 1 - 1)));
                    }
                }
                if stays_below(depth + d, rest) {
                    assert forall|k: int| 0 <= k <= steps.len() implies depth + climb(
                        #[trigger] steps.take(k),
                    ) >= 0 by {
                        if k > 0 {
                            assert(climb(steps.take(k)) == d + climb(rest.take(k - 1)));
                        }
                    }
                }
            }
            if steps[0] == "."@ {
                lemma_walk(from, rest);
                assert(depth + d == from.len());
            } else if steps[0] == ".."@ {
                lemma_walk(from.drop_last(), rest);
                assert(depth + d == from.drop_last().len());
            } else {
                lemma_walk(from.push(steps[0]), rest);
                assert(depth + d == from.push(steps[0]).len());
            }
        } else {
            assert(depth + climb(steps.take(1)) < 0);
        }
    }
}

/// Names that are neither `.` nor `..` lead down, one after the other.
proof fn lemma_walk_down(from: Seq<Seq<char>>, names: Seq<Seq<char>>, steps: Seq<Seq<char>>)
    requires
        forall|i: int| 0 <= i < names.len() ==> #[trigger] names[i] != "."@ && names[i] != ".."@,
    ensures
        walk(from, names + steps) == walk(from + names, steps),
    decreases names.len(),
{
    if names.len() == 0 {
        assert(names + steps == steps);
        assert(from + names == from);
    } else {
        assert((names + steps)[0] == names[0]);
        assert((names + steps).drop_first() == names.drop_first() + steps);
        lemma_walk_down(from.push(names[0]), names.drop_first(), steps);
        assert(from.push(names[0]) + names.drop_first() == from + names);
    }
}

/// A `.` stands only at the front of the components of a path.
proof fn lemma_inner_dots(parts: Seq<Seq<char>>)
    ensures
        forall|i: int| 1 <= i < counted(parts).len() ==> #[trigger] counted(parts)[i] != "."@,
    decreases parts.len(),
{
    if parts.len() > 0 {
        lemma_inner_dots(parts.drop_last());
        if parts.len() == 1 {
            assert(counted(parts.drop_last()).len() == 0);
        }
        assert forall|i: int| 1 <= i < counted(parts).len() implies #[trigger] counted(parts)[i]
            != "."@ by {
            if i < counted(parts.drop_last()).len() {
                assert(counted(parts)[i] == counted(parts.drop_last())[i]);
            }
        }
    }
}

/// A safe archive path leads to a place inside the archive.
pub proof fn lemma_safe_path_stays_inside(name: Seq<char>)
    requires
        is_safe_zip_path(name),
    ensures
        walk(seq![], components(name)) is Some,
{
    let steps = components(name);
    assert forall|k: int| 0 <= k <= steps.len() implies 0 + climb(#[trigger] steps.take(k)) >= 0 by {
        lemma_no_way_up(steps, k);
    }
    lemma_walk(seq![], steps);
}

proof fn lemma_no_way_up(steps: Seq<Seq<char>>, k: int)
    requires
        !steps.contains(".."@),
        0 <= k <= steps.len(),
    ensures
        climb(steps.take(k)) >= 0,
    decreases k,
{
    if k > 0 {
        lemma_no_way_up(steps, k - 1);
        assert(steps.take(k).drop_last() == steps.take(k - 1));
        assert(steps[k - 1] != ".."@);
    }
}

/// A path whose first part is not empty has that part as its first component.
proof fn lemma_first_component(parts: Seq<Seq<char>>)
    requires
        parts.len() > 0,
        parts[0].len() > 0,
    ensures
        counted(parts).len() > 0,
        counted(parts)[0] == parts[0],
    decreases parts.len(),
{
    if parts.len() > 1 {
        lemma_first_component(parts.drop_last());
    } else {
        assert(counted(parts.drop_last()) == Seq::<Seq<char>>::empty());
    }
}

/// A relative path has a component.
proof fn lemma_relative_has_component(name: Seq<char>)
    requires
        name.len() > 0,
        name[0] != '/',
    ensures
        components(name).len() > 0,
{
    crate::text::lemma_position(name, '/');
    let parts = crate::text::split(name, '/');
    assert(parts[0] == name.take(crate::text::position(name, '/')) || parts[0] == name);
    lemma_first_component(parts);
}

/// Going from the top to the directory that holds a safe path, and from there
/// on, is going on from as deep as that directory lies.
proof fn lemma_walk_from_holder(name: Seq<char>, steps: Seq<Seq<char>>)
    requires
        is_safe_zip_path(name),
    ensures
        walk(seq![], components(name).drop_last() + steps) is Some <==> stays_below(
            holder_depth(name),
            steps,
        ),
{
    let all = components(name);
    lemma_relative_has_component(name);
    let holder = all.drop_last();
    lemma_inner_dots(crate::text::split(name, '/'));
    let dotted = holder.len() > 0 && holder[0] == "."@;
    let names = if dotted {
        holder.drop_first()
    } else {
        holder
    };
    assert forall|i: int| 0 <= i < names.len() implies #[trigger] names[i] != "."@ && names[i]
        != ".."@ by {
        let j: int = if dotted {
            i + 1
        } else {
            i
        };
        assert(names[i] == all[j]);
        assert(all.contains(all[j]));
    }
    if dotted {
        assert(all[0] == holder[0]);
        assert((holder + steps)[0] == "."@);
        assert((holder + steps).drop_first() == names + steps);
    }
    assert(walk(seq![], holder + steps) == walk(seq![], names + steps));
    lemma_walk_down(seq![], names, steps);
    assert(Seq::<Seq<char>>::empty() + names == names);
    lemma_walk(names, steps);
    assert(names.len() == holder_depth(name)) by {
        if all.len() > 1 {
            assert(all[0] == holder[0]);
        }
    }
}

/// A link that was accepted stays inside: whoever goes from the top to the
/// directory that holds the link, and from there along its target, never rises
/// above the top.
pub proof fn lemma_safe_link_stays_inside(name: Seq<char>, target: Seq<char>)
    requires
        is_safe_zip_path(name),
        is_safe_link(name, target),
    ensures
        walk(seq![], components(name).drop_last() + components(link_path(target))) is Some,
{
    lemma_walk_from_holder(name, components(link_path(target)));
}

/// And a relative target that stays inside is accepted.
pub proof fn lemma_inside_link_is_safe(name: Seq<char>, target: Seq<char>)
    requires
        is_safe_zip_path(name),
        link_path(target).len() > 0,
        !is_absolute(link_path(target)),
        !link_path(target).contains(':'),
        walk(seq![], components(name).drop_last() + components(link_path(target))) is Some,
    ensures
        is_safe_link(name, target),
{
    lemma_walk_from_holder(name, components(link_path(target)));
}

/// Only empty parts and inner `.` parts do not count.
proof fn lemma_counted_names(parts: Seq<Seq<char>>, name: Seq<char>)
    requires
        name.len() > 0,
        name != "."@,
    ensures
        counted(parts).contains(name) <==> parts.contains(name),
    decreases parts.len(),
{
    if parts.len() > 0 {
        let before = parts.drop_last();
        lemma_counted_names(before, name);
        if parts.contains(name) {
            let i = choose|i: int| 0 <= i < parts.len() && parts[i] == name;
            if i < before.len() {
                assert(before[i] == name);
                let j = choose|j: int| 0 <= j < counted(before).len() && counted(before)[j] == name;
                assert(counted(parts)[j] == name);
            } else {
                assert(counted(parts).last() == name);
            }
        }
        if counted(parts).contains(name) {
            let j = choose|j: int| 0 <= j < counted(parts).len() && counted(parts)[j] == name;
            if j < counted(before).len() {
                assert(counted(before)[j] == name);
                let i = choose|i: int| 0 <= i < before.len() && before[i] == name;
                assert(parts[i] == name);
            } else {
                assert(parts.last() == name);
            }
        }
    }
}

/// An archive path is accepted exactly where it is not empty, has no slash in
/// front and no colon, and none of what stands between its slashes is `..`.
pub proof fn lemma_safe_zip_paths(parts: Seq<Seq<char>>)
    requires
        parts.len() > 0,
        forall|i: int| 0 <= i < parts.len() ==> !(#[trigger] parts[i]).contains('/'),
    ensures
        is_safe_zip_path(crate::text::joined_with(parts, '/')) <==> parts[0].len() > 0
            && !parts.contains(".."@) && forall|i: int|
            0 <= i < parts.len() ==> !(#[trigger] parts[i]).contains(':'),
{
    reveal_strlit(".");
    reveal_strlit("..");
    assert("."@.len() == 1 && ".."@.len() == 2);
    let name = crate::text::joined_with(parts, '/');
    crate::text::lemma_split_is_unique(parts, '/');
    lemma_counted_names(parts, ".."@);
    lemma_joined_holds(parts, '/', ':');
    assert(name.len() > 0 && name[0] != '/' <==> parts[0].len() > 0) by {
        if parts[0].len() > 0 {
            assert(name[0] == parts[0][0]);
            assert(parts[0].contains(parts[0][0]));
        } else if parts.len() > 1 {
            assert(name[0] == '/');
        }
    }
}

/// A character other than the one between the parts stands in one of them.
proof fn lemma_joined_holds(parts: Seq<Seq<char>>, c: char, d: char)
    requires
        c != d,
    ensures
        crate::text::joined_with(parts, c).contains(d) <==> exists|i: int|
            0 <= i < parts.len() && (#[trigger] parts[i]).contains(d),
    decreases parts.len(),
{
    let text = crate::text::joined_with(parts, c);
    if parts.len() == 1 {
        if text.contains(d) {
            assert(parts[0].contains(d));
        }
    } else if parts.len() > 1 {
        let first = parts[0];
        let rest = parts.drop_first();
        let tail = crate::text::joined_with(rest, c);
        lemma_joined_holds(rest, c, d);
        if text.contains(d) {
            let i = choose|i: int| 0 <= i < text.len() && text[i] == d;
            if i < first.len() {
                assert(first[i] == d);
                assert(parts[0].contains(d));
            } else {
                assert(tail[i - first.len() - 1] == d);
                let j = choose|j: int| 0 <= j < rest.len() && (#[trigger] rest[j]).contains(d);
                assert(parts[j + 1].contains(d));
            }
        }
        if exists|i: int| 0 <= i < parts.len() && (#[trigger] parts[i]).contains(d) {
            let i = choose|i: int| 0 <= i < parts.len() && (#[trigger] parts[i]).contains(d);
            if i == 0 {
                let k = choose|k: int| 0 <= k < first.len() && first[k] == d;
                assert(text[k] == d);
            } else {
                assert(rest[i - 1].contains(d));
                let k = choose|k: int| 0 <= k < tail.len() && tail[k] == d;
                assert(text[first.len() + 1 + k] == d);
            }
        }
    }
}

/// Names with slashes between them are the components of a path.
proof fn lemma_components_of_names(names: Seq<Seq<char>>)
    requires
        names.len() > 0,
        forall|i: int|
            0 <= i < names.len() ==> (#[trigger] names[i]).len() > 0 && names[i] != "."@
                && !names[i].contains('/'),
    ensures
        components(crate::text::joined_with(names, '/')) == names,
{
    crate::text::lemma_split_is_unique(names, '/');
    lemma_counted_all(names);
}

proof fn lemma_counted_all(names: Seq<Seq<char>>)
    requires
        forall|i: int| 0 <= i < names.len() ==> (#[trigger] names[i]).len() > 0 && names[i] != "."@,
    ensures
        counted(names) == names,
    decreases names.len(),
{
    if names.len() > 0 {
        lemma_counted_all(names.drop_last());
        assert(names.last() == names[names.len() - 1]);
        assert(names.drop_last().push(names.last()) == names);
    }
}

/// A link whose path has given names is accepted, with a target of given
/// steps, exactly where the walk along the steps, from the directory that holds
/// the link, stays inside.
pub proof fn lemma_links_follow_their_steps(names: Seq<Seq<char>>, steps: Seq<Seq<char>>)
    requires
        names.len() > 0,
        steps.len() > 0,
        forall|i: int|
            0 <= i < names.len() ==> (#[trigger] names[i]).len() > 0 && names[i] != "."@
                && names[i] != ".."@ && !names[i].contains('/') && !names[i].contains(':'),
        forall|i: int|
            0 <= i < steps.len() ==> (#[trigger] steps[i]).len() > 0 && steps[i] != "."@
                && !steps[i].contains('/') && !steps[i].contains(':') && !steps[i].contains('\\')
                && !steps[i].contains('\0'),
    ensures
        is_safe_link(
            crate::text::joined_with(names, '/'),
            crate::text::joined_with(steps, '/'),
        ) <==> walk(names.drop_last(), steps) is Some,
{
    reveal_strlit(".");
    reveal_strlit("..");
    assert("."@.len() == 1 && ".."@.len() == 2);
    let name = crate::text::joined_with(names, '/');
    let target = crate::text::joined_with(steps, '/');
    lemma_components_of_names(names);
    lemma_components_of_names(steps);
    lemma_joined_holds(steps, '/', ':');
    lemma_joined_holds(steps, '/', '\\');
    lemma_joined_holds(steps, '/', '\0');
    assert(target[0] == steps[0][0]);
    assert(steps[0].contains(steps[0][0]));
    assert(target.contains(target.last()));
    crate::text::lemma_trim_end_char_cut(target, '\0');
    assert(crate::text::trim_end_char(target, '\0') == target);
    assert(link_path(target) == target) by {
        assert forall|i: int| 0 <= i < target.len() implies link_path(target)[i] == target[i] by {
            assert(target.contains(target[i]));
        }
    }
    assert(names[0] != "."@);
    assert(holder_depth(name) == names.len() - 1);
    lemma_walk(names.drop_last(), steps);
}

/// NUL characters behind the target of a link make no difference.
pub proof fn lemma_link_padding(name: Seq<char>, target: Seq<char>, n: nat)
    ensures
        is_safe_link(name, target + Seq::new(n, |i: int| '\0')) == is_safe_link(name, target),
    decreases n,
{
    let pad = Seq::new(n, |i: int| '\0');
    if n == 0 {
        assert(target + pad == target);
    } else {
        let less = Seq::new((n - 1) as nat, |i: int| '\0');
        lemma_link_padding(name, target, (n - 1) as nat);
        assert((target + pad).drop_last() == target + less);
        assert((target + pad).last() == '\0');
    }
}

/// In the target of a link a backslash is a slash.
pub proof fn lemma_link_backslashes(name: Seq<char>, target: Seq<char>)
    ensures
        is_safe_link(name, crate::text::replace_char(target, '\\', '/')) == is_safe_link(
            name,
            target,
        ),
{
    lemma_trim_then_replace(target);
    let plain = crate::text::replace_char(target, '\\', '/');
    let path = link_path(target);
    assert(crate::text::replace_char(path, '\\', '/') == path);
}

proof fn lemma_trim_then_replace(target: Seq<char>)
    ensures
        crate::text::trim_end_char(crate::text::replace_char(target, '\\', '/'), '\0')
            == crate::text::replace_char(crate::text::trim_end_char(target, '\0'), '\\', '/'),
    decreases target.len(),
{
    let plain = crate::text::replace_char(target, '\\', '/');
    if target.len() > 0 && target.last() == '\0' {
        lemma_trim_then_replace(target.drop_last());
        assert(plain.last() == '\0');
        assert(plain.drop_last() == crate::text::replace_char(target.drop_last(), '\\', '/'));
    } else if target.len() > 0 {
        assert(plain.last() != '\0');
    }
}

/// A link to nothing, to an absolute path or to a path with a colon is refused,
/// whatever its name.
pub proof fn lemma_refused_links(name: Seq<char>, target: Seq<char>)
    ensures
        !is_safe_link(name, seq![]),
        target.len() > 0 && target[0] == '/' ==> !is_safe_link(name, target),
        target.len() > 0 && target[0] == '\\' ==> !is_safe_link(name, target),
        target.contains(':') ==> !is_safe_link(name, target),
{
    let kept = crate::text::trim_end_char(target, '\0');
    crate::text::lemma_trim_end_char_cut(target, '\0');
    let path = link_path(target);
    if target.len() > 0 && (target[0] == '/' || target[0] == '\\') {
        if kept.len() > 0 {
            assert(kept[0] == target[0]);
            assert(path[0] == '/');
        }
    }
    if target.contains(':') {
        let i = choose|i: int| 0 <= i < target.len() && target[i] == ':';
        assert(i < kept.len());
        assert(kept[i] == ':');
        assert(path[i] == ':');
    }
}

/// Doubled slashes, a slash at the end and inner `.` components make no
/// difference to a path.
pub proof fn lemma_same_paths(a: Seq<char>, b: Seq<char>)
    requires
        a.len() > 0,
    ensures
        is_same_path(a.push('/') + b, a.push('/').push('/') + b),
        is_same_path(a.push('/') + b, a.push('/').push('.').push('/') + b),
        is_same_path(a, a.push('/')),
{
    reveal_strlit(".");
    let none = Seq::<char>::empty();
    let dot = seq!['.'];
    assert(dot == "."@);
    crate::text::lemma_position(none, '/');
    crate::text::lemma_position(dot, '/');
    assert(crate::text::split(none, '/') == seq![none]);
    assert(!dot.contains('/'));
    assert(crate::text::split(dot, '/') == seq![dot]);
    let left = crate::text::split(a, '/');
    let right = crate::text::split(b, '/');
    crate::text::lemma_split_parts(a, '/');
    crate::text::lemma_split_join(a, b, '/');
    crate::text::lemma_split_join(a, none, '/');
    assert(a.push('/') + none == a.push('/'));
    let doubled = a.push('/');
    assert(crate::text::split(doubled, '/') == left + seq![none]);
    crate::text::lemma_split_join(doubled, b, '/');
    crate::text::lemma_split_join(a, dot, '/');
    let dotted = a.push('/').push('.');
    assert(a.push('/') + dot == dotted);
    crate::text::lemma_split_join(dotted, b, '/');
    lemma_idle_part(left, none, right);
    lemma_idle_part(left, dot, right);
    lemma_idle_part(left, none, seq![]);
    assert(left + seq![none] + right == (left + seq![none]) + right);
    assert(left + seq![none] + Seq::<Seq<char>>::empty() == left + seq![none]);
    assert(left + Seq::<Seq<char>>::empty() == left);
}

/// A part that does not count makes no difference between others.
proof fn lemma_idle_part(left: Seq<Seq<char>>, part: Seq<char>, right: Seq<Seq<char>>)
    requires
        left.len() > 0,
        part.len() == 0 || part == "."@,
    ensures
        counted(left + seq![part] + right) == counted(left + right),
    decreases right.len(),
{
    let more = left + seq![part] + right;
    let less = left + right;
    if right.len() == 0 {
        assert(more.drop_last() == left);
        assert(more.last() == part);
        assert(less == left);
    } else {
        lemma_idle_part(left, part, right.drop_last());
        assert(more.drop_last() == left + seq![part] + right.drop_last());
        assert(less.drop_last() == left + right.drop_last());
        assert(more.last() == right.last() && less.last() == right.last());
    }
}

/// A path leads up exactly where `..` stands between two of its slashes, or at
/// an end.
pub proof fn lemma_parent_steps(parts: Seq<Seq<char>>)
    requires
        parts.len() > 0,
        forall|i: int| 0 <= i < parts.len() ==> !(#[trigger] parts[i]).contains('/'),
    ensures
        has_parent_step(crate::text::joined_with(parts, '/')) <==> parts.contains(".."@),
{
    reveal_strlit(".");
    reveal_strlit("..");
    assert("."@.len() == 1 && ".."@.len() == 2);
    crate::text::lemma_split_is_unique(parts, '/');
    lemma_counted_names(parts, ".."@);
}

/// An absolute path stands for itself below any directory, and any path does
/// below no directory; otherwise one slash stands between the two.
pub proof fn lemma_joined(base: Seq<char>, path: Seq<char>)
    ensures
        path.len() > 0 && path[0] == '/' ==> joined(base, path) == path,
        joined(seq![], path) == path,
        base.len() > 0 && base.last() != '/' && (path.len() == 0 || path[0] != '/') ==> joined(
            base,
            path,
        ) == base + seq!['/'] + path,
        base.len() > 0 && base.last() == '/' && (path.len() == 0 || path[0] != '/') ==> joined(
            base,
            path,
        ) == base + path,
{
    assert(base + seq!['/'] == base.push('/'));
}

/// A `.` at the front of a path and a slash at the front are part of it: with and
/// without either it is not the same path.
pub proof fn lemma_front_of_a_path(name: Seq<char>)
    requires
        name.len() > 0,
        name != "."@,
        !name.contains('/'),
    ensures
        components(name) == seq![name],
        components(seq!['.', '/'] + name) == seq!["."@, name],
        components(seq!['/'] + name) == seq![name],
        !is_same_path(seq!['.', '/'] + name, name),
        !is_same_path(seq!['/'] + name, name),
        is_absolute(seq!['/'] + name) && !is_absolute(name),
{
    reveal_strlit(".");
    assert(name.contains(name[0]));
    let none = Seq::<char>::empty();
    let dot = seq!['.'];
    assert(dot == "."@);
    crate::text::lemma_position(name, '/');
    crate::text::lemma_position(dot, '/');
    crate::text::lemma_position(none, '/');
    assert(!dot.contains('/'));
    assert(crate::text::split(name, '/') == seq![name]);
    assert(crate::text::split(dot, '/') == seq![dot]);
    assert(crate::text::split(none, '/') == seq![none]);
    crate::text::lemma_split_join(dot, name, '/');
    crate::text::lemma_split_join(none, name, '/');
    assert(dot.push('/') + name == seq!['.', '/'] + name);
    assert(none.push('/') + name == seq!['/'] + name);
    let empty = Seq::<Seq<char>>::empty();
    assert(counted(empty) == empty);
    assert(seq![name].drop_last() == empty);
    assert(counted(seq![name]) == seq![name]);
    assert(seq![dot].drop_last() == empty);
    assert(counted(seq![dot]) == seq![dot]);
    assert(seq![none].drop_last() == empty);
    assert(counted(seq![none]) == empty);
    assert((seq![dot] + seq![name]).drop_last() == seq![dot]);
    assert((seq![none] + seq![name]).drop_last() == seq![none]);
    assert(seq![dot].push(name) == seq![dot, name]);
    assert(seq![dot, name].len() != seq![name].len());
}

}
