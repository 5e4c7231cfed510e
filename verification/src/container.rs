//! The names of container files.
//!
//! A container holds the chunks of one region and lies in a file named after the
//! region's coordinate: `r.<x>.<z>.mca`, with `<x>` and `<z>` written in base 10. The
//! names found in a directory tell which containers exist; any other file may lie
//! beside them and is passed over.
use crate::decimal::{
    int_text, lemma_numeral_has_no_dot, lemma_read_written, numeral_i64, parse_i64, push_i64,
};
use vstd::prelude::*;
use vstd::std_specs::iter::IteratorSpec;
use vstd::string::StringExecFns;

verus! {

/// The pieces of `s` that its dots separate, in order. A text without a dot is one
/// piece, and so is the empty text; two dots side by side have an empty piece between
/// them.
pub open spec fn dot_parts(s: Seq<char>) -> Seq<Seq<char>>
    decreases s.len(),
{
    if s.len() == 0 {
        seq![Seq::<char>::empty()]
    } else {
        let before = dot_parts(s.drop_last());
        if s.last() == '.' {
            before.push(Seq::<char>::empty())
        } else {
            before.drop_last().push(before.last().push(s.last()))
        }
    }
}

/// The first piece of a container's name.
pub open spec fn tag() -> Seq<char> {
    seq!['r']
}

/// The last piece of a container's name.
pub open spec fn extension() -> Seq<char> {
    seq!['m', 'c', 'a']
}

/// The coordinate of the container that a file of this name holds, or `None` where
/// the name is not that of a container.
///
/// A container's name has four pieces between dots: the tag, two numerals of `i64`s
/// and the extension.
pub open spec fn container_coord(name: Seq<char>) -> Option<(i64, i64)> {
    let parts = dot_parts(name);
    if parts.len() == 4 && parts[0] == tag() && parts[3] == extension() {
        match (numeral_i64(parts[1]), numeral_i64(parts[2])) {
            (Some(x), Some(z)) => Some((x, z)),
            _ => None,
        }
    } else {
        None
    }
}

/// The name made of the tag, the two texts `xs` and `zs` and the extension, with
/// dots between them: `r.<xs>.<zs>.mca`.
pub open spec fn dotted_name(xs: Seq<char>, zs: Seq<char>) -> Seq<char> {
    seq!['r', '.'] + xs + seq!['.'] + zs + seq!['.', 'm', 'c', 'a']
}

/// The name of the file that holds the container at `(x, z)`.
pub open spec fn container_name(x: i64, z: i64) -> Seq<char> {
    dotted_name(int_text(x as int), int_text(z as int))
}

/// The pieces `parts` put together with dots between them.
pub open spec fn dotted(parts: Seq<Seq<char>>) -> Seq<char>
    decreases parts.len(),
{
    if parts.len() == 0 {
        Seq::empty()
    } else if parts.len() == 1 {
        parts[0]
    } else {
        dotted(parts.drop_last()) + seq!['.'] + parts.last()
    }
}

/// Whether one of `names` is the name of the container at `c`.
pub open spec fn names_container(names: Seq<Seq<char>>, c: (i64, i64)) -> bool {
    exists|i: int| 0 <= i < names.len() && container_coord(#[trigger] names[i]) == Some(c)
}

/// The coordinates of the containers among `names`, each of them once, in the order
/// in which the names first give them.
pub open spec fn discovered(names: Seq<Seq<char>>) -> Seq<(i64, i64)>
    decreases names.len(),
{
    if names.len() == 0 {
        Seq::empty()
    } else {
        let before = discovered(names.drop_last());
        match container_coord(names.last()) {
            Some(c) => if before.contains(c) {
                before
            } else {
                before.push(c)
            },
            None => before,
        }
    }
}

/// The texts that `parts` hold.
pub open spec fn texts(parts: Seq<Vec<char>>) -> Seq<Seq<char>> {
    parts.map_values(|part: Vec<char>| part@)
}

/// The texts of `names`.
pub open spec fn name_texts(names: Seq<String>) -> Seq<Seq<char>> {
    names.map_values(|name: String| name@)
}

/// Every text has at least one piece.
proof fn lemma_dot_parts_nonempty(s: Seq<char>)
    ensures
        dot_parts(s).len() >= 1,
    decreases s.len(),
{
    if s.len() > 0 {
        lemma_dot_parts_nonempty(s.drop_last());
    }
}

/// A text without a dot, put behind another text, lengthens that text's last piece.
proof fn lemma_dot_parts_append(s: Seq<char>, t: Seq<char>)
    requires
        forall|i: int| 0 <= i < t.len() ==> t[i] != '.',
    ensures
        dot_parts(s + t) == dot_parts(s).drop_last().push(dot_parts(s).last() + t),
    decreases t.len(),
{
    lemma_dot_parts_nonempty(s);
    if t.len() == 0 {
        assert(s + t == s);
        assert(dot_parts(s).last() + t == dot_parts(s).last());
        assert(dot_parts(s).drop_last().push(dot_parts(s).last()) == dot_parts(s));
    } else {
        let t0 = t.drop_last();
        lemma_dot_parts_append(s, t0);
        assert((s + t).drop_last() == s + t0);
        assert((s + t).last() == t.last());
        let before = dot_parts(s + t0);
        assert(before.last() == dot_parts(s).last() + t0);
        assert(before.drop_last() == dot_parts(s).drop_last());
        assert((dot_parts(s).last() + t0).push(t.last()) == dot_parts(s).last() + t);
    }
}

/// A dot behind a text opens a new, empty piece.
proof fn lemma_dot_parts_dot(s: Seq<char>)
    ensures
        dot_parts(s.push('.')) == dot_parts(s).push(Seq::<char>::empty()),
{
    assert(s.push('.').drop_last() == s);
}

/// The pieces of a text, put together with dots between them, are the text.
pub proof fn lemma_dotted_parts(s: Seq<char>)
    ensures
        dotted(dot_parts(s)) == s,
    decreases s.len(),
{
    if s.len() == 0 {
        assert(dot_parts(s)[0] == s);
    } else {
        let s0 = s.drop_last();
        let before = dot_parts(s0);
        lemma_dotted_parts(s0);
        lemma_dot_parts_nonempty(s0);
        assert(s0.push(s.last()) == s);
        if s.last() == '.' {
            let parts = before.push(Seq::<char>::empty());
            assert(parts.drop_last() == before);
            assert(dotted(before) + seq!['.'] + Seq::<char>::empty() == s);
        } else {
            let grown = before.last().push(s.last());
            let parts = before.drop_last().push(grown);
            if before.len() == 1 {
                assert(parts[0] == grown);
                assert(before[0] == s0);
            } else {
                assert(parts.drop_last() == before.drop_last());
                assert(dotted(before.drop_last()) + seq!['.'] + grown == (dotted(
                    before.drop_last(),
                ) + seq!['.'] + before.last()).push(s.last()));
            }
        }
    }
}

/// A name made of the tag, two texts without a dot and the extension has just these
/// four pieces.
pub proof fn lemma_parts_of_dotted_name(xs: Seq<char>, zs: Seq<char>)
    requires
        forall|i: int| 0 <= i < xs.len() ==> xs[i] != '.',
        forall|i: int| 0 <= i < zs.len() ==> zs[i] != '.',
    ensures
        dot_parts(dotted_name(xs, zs)) == seq![tag(), xs, zs, extension()],
{
    let empty = Seq::<char>::empty();
    let s1 = tag();
    lemma_dot_parts_append(empty, s1);
    assert(empty + s1 == s1);
    assert(dot_parts(s1) == seq![s1]) by {
        assert(dot_parts(empty) == seq![empty]);
        assert(dot_parts(empty).drop_last().push(dot_parts(empty).last() + s1) == seq![s1]);
    }
    let s2 = s1.push('.');
    lemma_dot_parts_dot(s1);
    assert(dot_parts(s2) == seq![s1, empty]);
    let s3 = s2 + xs;
    lemma_dot_parts_append(s2, xs);
    assert(dot_parts(s3) == seq![s1, xs]) by {
        assert(empty + xs == xs);
        assert(seq![s1, empty].drop_last().push(empty + xs) == seq![s1, xs]);
    }
    let s4 = s3.push('.');
    lemma_dot_parts_dot(s3);
    assert(dot_parts(s4) == seq![s1, xs, empty]);
    let s5 = s4 + zs;
    lemma_dot_parts_append(s4, zs);
    assert(dot_parts(s5) == seq![s1, xs, zs]) by {
        assert(empty + zs == zs);
        assert(seq![s1, xs, empty].drop_last().push(empty + zs) == seq![s1, xs, zs]);
    }
    let s6 = s5.push('.');
    lemma_dot_parts_dot(s5);
    assert(dot_parts(s6) == seq![s1, xs, zs, empty]);
    let s7 = s6 + extension();
    lemma_dot_parts_append(s6, extension());
    assert(dot_parts(s7) == seq![s1, xs, zs, extension()]) by {
        assert(empty + extension() == extension());
        assert(seq![s1, xs, zs, empty].drop_last().push(empty + extension()) == seq![
            s1,
            xs,
            zs,
            extension(),
        ]);
    }
    assert(s7 == dotted_name(xs, zs));
}

/// What a container's name is: a name is that of the container at `(x, z)` just when
/// it is `r.<xs>.<zs>.mca` for a numeral `xs` of `x` and a numeral `zs` of `z`.
pub proof fn lemma_container_names(name: Seq<char>, x: i64, z: i64)
    ensures
        container_coord(name) == Some((x, z)) <==> exists|xs: Seq<char>, zs: Seq<char>|
            #![trigger dotted_name(xs, zs)]
            name == dotted_name(xs, zs) && numeral_i64(xs) == Some(x) && numeral_i64(zs) == Some(z),
{
    if container_coord(name) == Some((x, z)) {
        let parts = dot_parts(name);
        lemma_dotted_parts(name);
        let three = parts.drop_last();
        let two = three.drop_last();
        let one = two.drop_last();
        assert(dotted(one) == parts[0]);
        assert(dotted(two) == parts[0] + seq!['.'] + parts[1]);
        assert(dotted(three) == parts[0] + seq!['.'] + parts[1] + seq!['.'] + parts[2]);
        assert(name == dotted_name(parts[1], parts[2]));
    }
    if exists|xs: Seq<char>, zs: Seq<char>|
        #![trigger dotted_name(xs, zs)]
        name == dotted_name(xs, zs) && numeral_i64(xs) == Some(x) && numeral_i64(zs) == Some(z) {
        let (xs, zs) = choose|xs: Seq<char>, zs: Seq<char>|
            #![trigger dotted_name(xs, zs)]
            name == dotted_name(xs, zs) && numeral_i64(xs) == Some(x) && numeral_i64(zs) == Some(
                z,
            );
        lemma_numeral_has_no_dot(xs);
        lemma_numeral_has_no_dot(zs);
        lemma_parts_of_dotted_name(xs, zs);
    }
}

/// A container's name names its container: reading the name written for `(x, z)`
/// gives `(x, z)`.
pub proof fn lemma_name_round_trip(x: i64, z: i64)
    ensures
        container_coord(container_name(x, z)) == Some((x, z)),
{
    lemma_read_written(x);
    lemma_read_written(z);
    lemma_container_names(container_name(x, z), x, z);
}

/// Cuts `s` at its dots.
pub fn split_dots(s: &str) -> (parts: Vec<Vec<char>>)
    ensures
        texts(parts@) == dot_parts(s@),
{
    let mut done: Vec<Vec<char>> = Vec::new();
    let mut current: Vec<char> = Vec::new();
    for c in it: s.chars()
        invariant
            it.seq() == s@,
            texts(done@).push(current@) == dot_parts(s@.take(it.index())),
    {
        let ghost read = s@.take(it.index());
        let ghost next = s@.take(it.index() + 1);
        proof {
            assert(next.drop_last() == read);
            assert(next.last() == c);
            assert(texts(done@).push(current@).drop_last() == texts(done@));
        }
        if c == '.' {
            done.push(current);
            current = Vec::new();
            proof {
                assert(texts(done@) == dot_parts(read));
            }
        } else {
            current.push(c);
        }
    }
    proof {
        assert(s@.take(s@.len() as int) == s@);
    }
    let ghost before = done@;
    done.push(current);
    proof {
        assert(texts(done@) == texts(before).push(current@));
    }
    done
}

/// Whether `part` is the tag that begins a container's name.
fn is_tag(part: &Vec<char>) -> (r: bool)
    ensures
        r == (part@ == tag()),
{
    let r = part.len() == 1 && part[0] == 'r';
    proof {
        if r {
            assert(part@ =~= tag());
        }
    }
    r
}

/// Whether `part` is the extension that ends a container's name.
fn is_extension(part: &Vec<char>) -> (r: bool)
    ensures
        r == (part@ == extension()),
{
    let r = part.len() == 3 && part[0] == 'm' && part[1] == 'c' && part[2] == 'a';
    proof {
        if r {
            assert(part@ =~= extension());
        }
    }
    r
}

/// Reads the coordinate of a container from the name of its file: `r.3.-5.mca` is
/// the container at `(3, -5)`. A name of any other form gives `None`.
pub fn parse_container_name(name: &str) -> (r: Option<(i64, i64)>)
    ensures
        r == container_coord(name@),
{
    let parts = split_dots(name);
    if parts.len() != 4 {
        return None;
    }
    proof {
        assert(texts(parts@)[0] == parts@[0]@);
        assert(texts(parts@)[1] == parts@[1]@);
        assert(texts(parts@)[2] == parts@[2]@);
        assert(texts(parts@)[3] == parts@[3]@);
    }
    if !is_tag(&parts[0]) || !is_extension(&parts[3]) {
        return None;
    }
    let x = parse_i64(parts[1].as_slice());
    let z = parse_i64(parts[2].as_slice());
    match (x, z) {
        (Some(x), Some(z)) => Some((x, z)),
        _ => None,
    }
}

/// The name of the file that holds the container at `(x, z)`.
pub fn container_file_name(x: i64, z: i64) -> (name: String)
    ensures
        name@ == container_name(x, z),
{
    proof {
        reveal_strlit("r.");
        reveal_strlit(".");
        reveal_strlit(".mca");
    }
    let mut name = String::from_str("r.");
    push_i64(&mut name, x);
    name.append(".");
    push_i64(&mut name, z);
    name.append(".mca");
    proof {
        assert("r."@ =~= seq!['r', '.']);
        assert("."@ =~= seq!['.']);
        assert(".mca"@ =~= seq!['.', 'm', 'c', 'a']);
    }
    name
}

/// Whether `(x, z)` is among `coords`.
pub fn contains_coord(coords: &Vec<(i64, i64)>, x: i64, z: i64) -> (r: bool)
    ensures
        r == coords@.contains((x, z)),
{
    let mut i: usize = 0;
    while i < coords.len()
        invariant
            i <= coords.len(),
            forall|k: int| 0 <= k < i ==> coords@[k] != (x, z),
        decreases coords.len() - i,
    {
        if coords[i].0 == x && coords[i].1 == z {
            return true;
        }
        i += 1;
    }
    false
}

/// The set of the containers among the files of a directory: the coordinate of
/// every name that is a container's, once, in the order in which the names first
/// give them. A name that is not a container's is passed over, and so is a second
/// name for a container that has one.
pub fn discover(names: &Vec<String>) -> (regions: Vec<(i64, i64)>)
    ensures
        regions@ == discovered(name_texts(names@)),
        regions@.no_duplicates(),
        forall|c: (i64, i64)|
            #[trigger] regions@.contains(c) <==> names_container(name_texts(names@), c),
{
    let mut regions: Vec<(i64, i64)> = Vec::new();
    let mut i: usize = 0;
    while i < names.len()
        invariant
            i <= names.len(),
            regions@ == discovered(name_texts(names@).take(i as int)),
        decreases names.len() - i,
    {
        let ghost read = name_texts(names@).take(i as int);
        let ghost next = name_texts(names@).take(i + 1);
        proof {
            assert(next.drop_last() == read);
            assert(next.last() == names@[i as int]@);
        }
        match parse_container_name(names[i].as_str()) {
            Some(c) => {
                if !contains_coord(&regions, c.0, c.1) {
                    regions.push(c);
                }
            },
            None => {},
        }
        i += 1;
    }
    proof {
        assert(name_texts(names@).take(names.len() as int) == name_texts(names@));
        lemma_discovered_is_set(name_texts(names@));
        assert forall|c: (i64, i64)| #[trigger]
            regions@.contains(c) <==> names_container(name_texts(names@), c) by {
            lemma_discovered_contains(name_texts(names@), c);
        }
    }
    regions
}

/// What is discovered is a set: no coordinate is discovered twice.
pub proof fn lemma_discovered_is_set(names: Seq<Seq<char>>)
    ensures
        discovered(names).no_duplicates(),
    decreases names.len(),
{
    if names.len() > 0 {
        lemma_discovered_is_set(names.drop_last());
    }
}

/// A coordinate is discovered just when one of the names is that of its container.
pub proof fn lemma_discovered_contains(names: Seq<Seq<char>>, c: (i64, i64))
    ensures
        discovered(names).contains(c) <==> names_container(names, c),
    decreases names.len(),
{
    if names.len() > 0 {
        let init = names.drop_last();
        let before = discovered(init);
        let found = discovered(names);
        lemma_discovered_contains(init, c);
        if found.contains(c) && !before.contains(c) {
            assert(container_coord(names[names.len() - 1]) == Some(c));
        }
        if before.contains(c) {
            let i = choose|i: int|
                0 <= i < init.len() && container_coord(#[trigger] init[i]) == Some(c);
            assert(names[i] == init[i]);
            let k = choose|k: int| 0 <= k < before.len() && before[k] == c;
            assert(found[k] == c);
        }
        if names_container(names, c) {
            let i = choose|i: int|
                0 <= i < names.len() && container_coord(#[trigger] names[i]) == Some(c);
            if i == names.len() - 1 {
                if !before.contains(c) {
                    assert(found[found.len() - 1] == c);
                }
            } else {
                assert(init[i] == names[i]);
            }
        }
    }
}

} // verus!
