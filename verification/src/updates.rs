//! Pending package updates: parsing the update helper's
//! `name old-version -> new-version` listing and the command that
//! applies the updates.

use vstd::prelude::*;
use vstd::string::*;

use crate::text::{lines_of, lines_spec, split_whitespace_str, tokens};

verus! {

/// A package with an update pending.
#[derive(Debug, Clone, PartialEq)]
pub struct UpdatePackage {
    pub name: String,
    pub old_version: String,
    pub new_version: String,
}

/// The mathematical image of a pending update.
pub struct UpdatePackageData {
    pub name: Seq<char>,
    pub old_version: Seq<char>,
    pub new_version: Seq<char>,
}

impl View for UpdatePackage {
    type V = UpdatePackageData;

    open spec fn view(&self) -> UpdatePackageData {
        UpdatePackageData {
            name: self.name@,
            old_version: self.old_version@,
            new_version: self.new_version@,
        }
    }
}

impl DeepView for UpdatePackage {
    type V = UpdatePackageData;

    open spec fn deep_view(&self) -> UpdatePackageData {
        self.view()
    }
}

/// The update a listing line denotes: of the whitespace tokens
/// `name old -> new`, the first, second and fourth; lines with fewer
/// than four tokens are skipped.
pub open spec fn update_row(line: Seq<char>) -> Option<UpdatePackageData> {
    let t = tokens(line);
    if t.len() >= 4 {
        Some(UpdatePackageData { name: t[0], old_version: t[1], new_version: t[3] })
    } else {
        None
    }
}

/// The updates of all well-shaped lines, in listing order.
pub open spec fn update_rows(lines: Seq<Seq<char>>) -> Seq<UpdatePackageData>
    decreases lines.len(),
{
    if lines.len() == 0 {
        Seq::empty()
    } else {
        let rest = update_rows(lines.drop_last());
        match update_row(lines.last()) {
            Some(u) => rest.push(u),
            None => rest,
        }
    }
}

/// Parse the update helper's listing.
pub fn parse_update_list(text: &str) -> (r: Vec<UpdatePackage>)
    ensures
        r.deep_view() == update_rows(lines_spec(text@)),
{
    let lines = lines_of(text);
    let ghost lv = lines.deep_view();
    let mut r: Vec<UpdatePackage> = Vec::new();
    let mut li: usize = 0;
    proof {
        assert(lv.take(0) =~= Seq::<Seq<char>>::empty());
    }
    while li < lines.len()
        invariant
            li <= lines.len(),
            lv == lines.deep_view(),
            lv.len() == lines.len(),
            r.deep_view() == update_rows(lv.take(li as int)),
        decreases lines.len() - li,
    {
        let ghost done = lv.take(li as int);
        proof {
            assert(lv.take(li + 1).drop_last() =~= done);
            assert(lv.take(li + 1).last() == lv[li as int]);
            assert(lines@[li as int]@ == lv[li as int]);
        }
        let parts = split_whitespace_str(lines[li].as_str());
        if parts.len() >= 4 {
            proof {
                assert(parts.deep_view()[0] == parts@[0]@);
                assert(parts.deep_view()[1] == parts@[1]@);
                assert(parts.deep_view()[3] == parts@[3]@);
            }
            let ghost r0 = r.deep_view();
            let item = UpdatePackage {
                name: parts[0].clone(),
                old_version: parts[1].clone(),
                new_version: parts[3].clone(),
            };
            let ghost iv = item@;
            r.push(item);
            proof {
                assert(update_rows(lv.take(li + 1)) == update_rows(done).push(iv));
                assert(r.deep_view() =~= r0.push(iv));
            }
        } else {
            proof {
                assert(update_rows(lv.take(li + 1)) == update_rows(done));
            }
        }
        li += 1;
    }
    proof {
        assert(lv.take(lines.len() as int) =~= lv);
    }
    r
}

/// The command line that brings the whole system up to date.
pub fn update_command() -> (r: String)
    ensures
        r@ == "sudo pacman -Syu"@,
{
    String::from_str("sudo pacman -Syu")
}

} // verus!
