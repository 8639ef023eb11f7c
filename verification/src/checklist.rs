//! A checklist of the notes of a directory tree, and the test for notes without content.
use vstd::prelude::*;
use crate::config::strs_v;
use crate::paths::{diff_paths, opt_view, relative_path};
use crate::render::join_vec;
use crate::text::{chars_of, join, lines, lines_vec, push_all, push_str, replace_char, replace_char_vec, string_of, views};

verus! {

/// One checklist item: `- <marker> `text``, after the given indentation.
pub open spec fn check_item(indent: Seq<char>, marker: Seq<char>, text: Seq<char>) -> Seq<char> {
    indent + "- "@ + marker + " `"@ + text + "`"@
}

/// The item that stands for the files of a directory.
pub open spec fn files_item(marker: Seq<char>) -> Seq<char> {
    "\t- "@ + marker + " files in directory"@
}

/// A sub-directory's checklist, indented by one tab on each line.
pub open spec fn indented(text: Seq<char>) -> Seq<char> {
    join(lines(text).map_values(|l: Seq<char>| "\t"@ + l), "\n"@)
}

/// The lines of a directory's checklist: the directory, then (if it holds notes) the item for
/// its files and one item per note, then the checklists of its sub-directories.
pub open spec fn checklist_lines(
    root: Seq<char>,
    files: Seq<Seq<char>>,
    subs: Seq<Seq<char>>,
    marker: Seq<char>,
) -> Seq<Seq<char>> {
    seq![check_item(Seq::empty(), marker, root)] + (if files.len() > 0 {
        seq![files_item(marker)] + files.map_values(|f: Seq<char>| check_item("\t\t"@, marker, f))
    } else {
        Seq::empty()
    }) + subs.map_values(|s: Seq<char>| indented(s))
}

/// All paths can be given relative to the root.
pub open spec fn all_relative(files: Seq<Seq<char>>, root: Seq<char>) -> bool {
    forall|i: int| 0 <= i < files.len() ==> (#[trigger] relative_path(files[i], root)) is Some
}

/// The paths relative to the root.
pub open spec fn relatives(files: Seq<Seq<char>>, root: Seq<char>) -> Seq<Seq<char>> {
    files.map_values(|f: Seq<char>| relative_path(f, root).unwrap())
}

fn indent_text(text: &str) -> (r: Vec<char>)
    ensures
        r@ == indented(text@),
{
    let ls = lines_vec(&chars_of(text));
    let mut out: Vec<Vec<char>> = Vec::new();
    let mut i: usize = 0;
    while i < ls.len()
        invariant
            i <= ls.len(),
            views(out@) == views(ls@).take(i as int).map_values(|l: Seq<char>| "\t"@ + l),
        decreases ls.len() - i,
    {
        let mut l: Vec<char> = Vec::new();
        push_str(&mut l, "\t");
        push_all(&mut l, &ls[i]);
        let ghost before = views(out@);
        out.push(l);
        proof {
            assert(views(out@) =~= before.push("\t"@ + ls@[i as int]@));
            assert(views(ls@).take(i + 1).map_values(|l: Seq<char>| "\t"@ + l) =~= views(ls@).take(
                i as int,
            ).map_values(|l: Seq<char>| "\t"@ + l).push("\t"@ + ls@[i as int]@));
        }
        i = i + 1;
    }
    proof {
        assert(views(ls@).take(ls.len() as int) =~= views(ls@));
    }
    join_vec(&out, "\n")
}

fn item_vec(indent: &str, marker: &str, text: &str) -> (r: Vec<char>)
    ensures
        r@ == check_item(indent@, marker@, text@),
{
    let mut r: Vec<char> = Vec::new();
    push_str(&mut r, indent);
    push_str(&mut r, "- ");
    push_str(&mut r, marker);
    push_str(&mut r, " `");
    push_str(&mut r, text);
    push_str(&mut r, "`");
    r
}

/// The checklist of a directory: `root` is its path, `files` the paths of its notes, `subs` the
/// checklists of its sub-directories. Items are `- <marker> `path``; the notes are given
/// relative to the root, below an item `files in directory`, and the sub-directories' lines
/// are indented by a tab. `None` where a note's path cannot be given relative to the root.
pub fn checklist_text(root: &str, files: &[String], subs: &[String], todo_marker: &str) -> (r: Option<
    String,
>)
    ensures
        match r {
            Some(t) => all_relative(strs_v(files@), root@) && t@ == join(
                checklist_lines(root@, relatives(strs_v(files@), root@), strs_v(subs@), todo_marker@),
                "\n"@,
            ),
            None => !all_relative(strs_v(files@), root@),
        },
{
    let ghost fs = strs_v(files@);
    let mut rels: Vec<String> = Vec::new();
    let mut i: usize = 0;
    while i < files.len()
        invariant
            i <= files@.len(),
            fs == strs_v(files@),
            all_relative(fs.take(i as int), root@),
            strs_v(rels@) == relatives(fs.take(i as int), root@),
        decreases files.len() - i,
    {
        proof {
            assert(fs.take(i + 1).drop_last() =~= fs.take(i as int));
        }
        match diff_paths(files[i].as_str(), root) {
            Some(rel) => {
                let ghost before = strs_v(rels@);
                rels.push(rel);
                proof {
                    assert(opt_view(Some(rel)) == relative_path(fs[i as int], root@));
                    assert(strs_v(rels@) =~= before.push(rel@));
                    assert(relatives(fs.take(i + 1), root@) =~= relatives(fs.take(i as int), root@).push(rel@));
                    assert forall|k: int| 0 <= k < fs.take(i + 1).len() implies (#[trigger] relative_path(
                        fs.take(i + 1)[k],
                        root@,
                    )) is Some by {
                        if k < i {
                            assert(fs.take(i + 1)[k] == fs.take(i as int)[k]);
                        }
                    }
                }
            },
            None => {
                proof {
                    assert(relative_path(fs[i as int], root@) is None);
                }
                return None;
            },
        }
        i = i + 1;
    }
    proof {
        assert(fs.take(files@.len() as int) =~= fs);
    }
    let ghost rs = strs_v(rels@);
    let mut out: Vec<Vec<char>> = Vec::new();
    out.push(item_vec("", todo_marker, root));
    proof {
        reveal_strlit("");
        assert(""@ =~= Seq::<char>::empty());
    }
    if rels.len() > 0 {
        let mut f: Vec<char> = Vec::new();
        push_str(&mut f, "\t- ");
        push_str(&mut f, todo_marker);
        push_str(&mut f, " files in directory");
        out.push(f);
        let mut j: usize = 0;
        while j < rels.len()
            invariant
                j <= rels@.len(),
                rs == strs_v(rels@),
                views(out@) == seq![check_item(Seq::empty(), todo_marker@, root@), files_item(todo_marker@)]
                    + rs.take(j as int).map_values(|f: Seq<char>| check_item("\t\t"@, todo_marker@, f)),
            decreases rels.len() - j,
        {
            let ghost before = views(out@);
            out.push(item_vec("\t\t", todo_marker, rels[j].as_str()));
            proof {
                assert(views(out@) =~= before.push(check_item("\t\t"@, todo_marker@, rs[j as int])));
                assert(rs.take(j + 1).map_values(|f: Seq<char>| check_item("\t\t"@, todo_marker@, f))
                    =~= rs.take(j as int).map_values(|f: Seq<char>| check_item("\t\t"@, todo_marker@, f)).push(
                    check_item("\t\t"@, todo_marker@, rs[j as int]),
                ));
            }
            j = j + 1;
        }
        proof {
            assert(rs.take(rels@.len() as int) =~= rs);
        }
    }
    let ghost head = views(out@);
    proof {
        assert(head =~= seq![check_item(Seq::empty(), todo_marker@, root@)] + (if rs.len() > 0 {
            seq![files_item(todo_marker@)] + rs.map_values(|f: Seq<char>| check_item("\t\t"@, todo_marker@, f))
        } else {
            Seq::empty()
        }));
    }
    let mut k: usize = 0;
    while k < subs.len()
        invariant
            k <= subs@.len(),
            views(out@) == head + strs_v(subs@).take(k as int).map_values(|s: Seq<char>| indented(s)),
        decreases subs.len() - k,
    {
        let ghost before = views(out@);
        out.push(indent_text(subs[k].as_str()));
        proof {
            assert(views(out@) =~= before.push(indented(subs@[k as int]@)));
            assert(strs_v(subs@).take(k + 1).map_values(|s: Seq<char>| indented(s)) =~= strs_v(subs@).take(
                k as int,
            ).map_values(|s: Seq<char>| indented(s)).push(indented(subs@[k as int]@)));
        }
        k = k + 1;
    }
    proof {
        assert(strs_v(subs@).take(subs@.len() as int) =~= strs_v(subs@));
        assert(views(out@) =~= checklist_lines(root@, rs, strs_v(subs@), todo_marker@));
    }
    Some(string_of(&join_vec(&out, "\n")))
}

/// A note without content: nothing is left of its text once the `-` are removed.
pub fn is_empty_note(text: &str) -> (r: bool)
    ensures
        r == (replace_char(text@, '-', Seq::empty()).len() == 0),
{
    let stripped = replace_char_vec(&chars_of(text), '-', &Vec::new());
    stripped.len() == 0
}

} // verus!
