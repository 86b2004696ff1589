//! Startup commands: reading the `exec-once` lines out of the
//! compositor's startup configuration and writing them back.

use vstd::prelude::*;
use vstd::string::*;

use crate::text::{
    find_char, is_prefix, join_char, lemma_join_split, lemma_split_concat, lemma_split_len,
    lemma_split_sep_free, lines_of, lines_spec, split_char, starts_with_str, trim_spec, trim_str,
};

verus! {

/// The command a configuration line declares: a trimmed line starting
/// with `exec-once` and holding an equals sign yields what follows the
/// first equals sign, trimmed; other lines yield nothing.
pub open spec fn startup_row(line: Seq<char>) -> Option<Seq<char>> {
    let t = trim_spec(line);
    if !is_prefix(t, "exec-once"@) {
        None
    } else {
        let parts = split_char(t, '=');
        if parts.len() < 2 {
            None
        } else {
            Some(trim_spec(join_char(parts.subrange(1, parts.len() as int), '=')))
        }
    }
}

/// The commands of all declaring lines, in file order.
pub open spec fn startup_rows(lines: Seq<Seq<char>>) -> Seq<Seq<char>>
    decreases lines.len(),
{
    if lines.len() == 0 {
        Seq::empty()
    } else {
        let rest = startup_rows(lines.drop_last());
        match startup_row(lines.last()) {
            Some(c) => rest.push(c),
            None => rest,
        }
    }
}

fn parse_startup_line(line: &str) -> (r: Option<String>)
    ensures
        match r {
            Some(c) => startup_row(line@) == Some(c@),
            None => startup_row(line@) is None,
        },
{
    let trimmed = trim_str(line);
    if !starts_with_str(trimmed.as_str(), "exec-once") {
        return None;
    }
    let t = trimmed.as_str();
    let len = t.unicode_len();
    match find_char(t, '=') {
        None => {
            proof {
                lemma_split_sep_free(t@, '=');
            }
            None
        },
        Some(i) => {
            let after = t.substring_char(i + 1, len);
            proof {
                let before = t@.subrange(0, i as int);
                let afterv = t@.subrange(i + 1, len as int);
                assert(t@ =~= before + seq!['='] + afterv);
                assert(!before.contains('=')) by {
                    assert forall|j: int| 0 <= j < before.len() implies before[j] != '=' by {
                        assert(before[j] == t@[j]);
                    }
                }
                lemma_split_concat(before, afterv, '=');
                lemma_split_sep_free(before, '=');
                lemma_split_len(afterv, '=');
                let parts = split_char(t@, '=');
                assert(parts =~= seq![before] + split_char(afterv, '='));
                assert(parts.len() >= 2);
                assert(parts.subrange(1, parts.len() as int) =~= split_char(afterv, '='));
                lemma_join_split(afterv, '=');
            }
            Some(trim_str(after))
        },
    }
}

/// Read the startup commands out of the configuration text.
pub fn parse_startup_commands(text: &str) -> (r: Vec<String>)
    ensures
        r.deep_view() == startup_rows(lines_spec(text@)),
{
    let lines = lines_of(text);
    let ghost lv = lines.deep_view();
    let mut r: Vec<String> = Vec::new();
    let mut li: usize = 0;
    proof {
        assert(lv.take(0) =~= Seq::<Seq<char>>::empty());
    }
    while li < lines.len()
        invariant
            li <= lines.len(),
            lv == lines.deep_view(),
            lv.len() == lines.len(),
            r.deep_view() == startup_rows(lv.take(li as int)),
        decreases lines.len() - li,
    {
        let ghost done = lv.take(li as int);
        proof {
            assert(lv.take(li + 1).drop_last() =~= done);
            assert(lv.take(li + 1).last() == lv[li as int]);
            assert(lines@[li as int]@ == lv[li as int]);
        }
        match parse_startup_line(lines[li].as_str()) {
            Some(c) => {
                let ghost cv = c@;
                let ghost r0 = r.deep_view();
                r.push(c);
                proof {
                    assert(startup_rows(lv.take(li + 1)) == startup_rows(done).push(cv));
                    assert(r.deep_view() =~= r0.push(cv));
                }
            },
            None => {
                proof {
                    assert(startup_rows(lv.take(li + 1)) == startup_rows(done));
                }
            },
        }
        li += 1;
    }
    proof {
        assert(lv.take(lines.len() as int) =~= lv);
    }
    r
}

/// The configuration text a command list persists as: one
/// `exec-once = ` line per command that is not blank after trimming.
pub open spec fn startup_conf_spec(cmds: Seq<Seq<char>>) -> Seq<char>
    decreases cmds.len(),
{
    if cmds.len() == 0 {
        Seq::empty()
    } else {
        let rest = startup_conf_spec(cmds.drop_last());
        if trim_spec(cmds.last()).len() > 0 {
            rest + "exec-once = "@ + trim_spec(cmds.last()) + "\n"@
        } else {
            rest
        }
    }
}

/// Render a command list back into configuration text.
pub fn startup_conf_content(cmds: &Vec<String>) -> (r: String)
    ensures
        r@ == startup_conf_spec(cmds.deep_view()),
{
    let ghost cv = cmds.deep_view();
    let mut r = String::new();
    let mut i: usize = 0;
    proof {
        assert(cv.take(0) =~= Seq::<Seq<char>>::empty());
    }
    while i < cmds.len()
        invariant
            i <= cmds.len(),
            cv == cmds.deep_view(),
            cv.len() == cmds.len(),
            r@ == startup_conf_spec(cv.take(i as int)),
        decreases cmds.len() - i,
    {
        proof {
            assert(cv.take(i + 1).drop_last() =~= cv.take(i as int));
            assert(cv.take(i + 1).last() == cv[i as int]);
            assert(cmds@[i as int]@ == cv[i as int]);
        }
        let trimmed = trim_str(cmds[i].as_str());
        if trimmed.as_str().unicode_len() > 0 {
            r.append("exec-once = ");
            r.append(trimmed.as_str());
            r.append("\n");
        }
        i += 1;
    }
    proof {
        assert(cv.take(cmds.len() as int) =~= cv);
    }
    r
}

} // verus!
