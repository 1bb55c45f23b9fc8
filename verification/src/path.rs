//! Paths as text.
use vstd::prelude::*;
use crate::text::{cat, cat3, chars_of, not_found, pieces, same, split, split_behind, texts};

verus! {

/// The path of `part` below `base`: an absolute part stands for itself, and a slash
/// is put between the two where `base` needs one.
pub open spec fn under(base: Seq<char>, part: Seq<char>) -> Seq<char> {
    if part.len() > 0 && part[0] == '/' {
        part
    } else if base.len() == 0 || base[base.len() - 1] == '/' {
        base + part
    } else {
        base + "/"@ + part
    }
}

/// The path of `part` below `base`.
pub fn path_under(base: &str, part: &str) -> (r: String)
    ensures
        r@ == under(base@, part@),
{
    let p = chars_of(part);
    let b = chars_of(base);
    if p.len() > 0 && p[0] == '/' {
        part.to_owned()
    } else if b.len() == 0 || b[b.len() - 1] == '/' {
        cat(base, part)
    } else {
        cat3(base, "/", part)
    }
}

/// The last part that names something: not empty, and not the dot for the directory
/// itself. Empty where there is none.
pub open spec fn last_named(parts: Seq<Seq<char>>) -> Seq<char>
    decreases parts.len(),
{
    if parts.len() == 0 {
        seq![]
    } else if parts.last().len() == 0 || parts.last() == "."@ {
        last_named(parts.drop_last())
    } else {
        parts.last()
    }
}

/// The name of what a path leads to; empty where the path ends in two dots, or names
/// nothing.
pub open spec fn file_name(p: Seq<char>) -> Seq<char> {
    let l = last_named(split(p, "/"@));
    if l == ".."@ {
        seq![]
    } else {
        l
    }
}

/// The name of what a path leads to.
pub fn name_of(p: &str) -> (r: String)
    ensures
        r@ == file_name(p@),
{
    let parts = pieces(p, "/");
    let ghost t = texts(parts@);
    let mut i: usize = parts.len();
    assert(t.take(i as int) =~= t);
    proof {
        reveal_strlit("..");
    }
    while i > 0
        invariant
            i <= parts@.len(),
            t == texts(parts@),
            t == split(p@, "/"@),
            last_named(t) == last_named(t.take(i as int)),
            ".."@.len() == 2,
        decreases i,
    {
        proof {
            assert(t.take(i as int).last() == parts@[i - 1]@);
            assert(t.take(i as int).drop_last() =~= t.take(i - 1));
        }
        let x = parts[i - 1].as_str();
        if !x.is_empty() && !same(x, ".") {
            if same(x, "..") {
                return String::new();
            }
            return x.to_owned();
        }
        i -= 1;
    }
    String::new()
}

// ---------------------------------------------------------------- laws

/// A part is put below a path with one slash between them; one that begins at the root
/// stands for itself.
pub proof fn parts_go_below(base: Seq<char>, part: Seq<char>)
    requires
        base.len() > 0,
        base.last() != '/',
        part.len() > 0,
        part[0] != '/',
    ensures
        under(base, part) == base + "/"@ + part,
        under(base + "/"@, part) == base + "/"@ + part,
        under(base, "/"@ + part) == "/"@ + part,
        under(seq![], part) == part,
{
    reveal_strlit("/");
    assert(Seq::<char>::empty() + part =~= part);
    assert(("/"@ + part)[0] == '/');
}

/// A path leads to what its last part names, with a slash behind it or without.
pub proof fn last_part_is_the_name(dir: Seq<char>, name: Seq<char>)
    requires
        !dir.contains('/'),
        !name.contains('/'),
        name.len() > 0,
        name != "."@,
        name != ".."@,
    ensures
        file_name(dir + seq!['/'] + name) == name,
        file_name(name) == name,
        file_name(name + seq!['/'] + Seq::<char>::empty()) == name,
{
    reveal_strlit("/");
    assert("/"@ =~= seq!['/']);
    split_behind(dir, '/', name);
    not_found(name, '/');
    let e = Seq::<char>::empty();
    not_found(e, '/');
    split_behind(name, '/', e);
    let two = seq![name] + seq![e];
    assert(two.drop_last() =~= seq![name]);
    assert((seq![dir] + seq![name]).last() == name);
    reveal_with_fuel(last_named, 2);
}

} // verus!
