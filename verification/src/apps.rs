//! Installed applications and packages: parsing desktop entries, the
//! package manager's listing, and its file-ownership report.

use vstd::prelude::*;
use vstd::string::*;

use crate::text::{
    find_substr, first_sub, is_prefix, lines_of, lines_spec, split_whitespace_str,
    starts_with_str, str_eq, strip_prefix_all, tokens, trim_spec, trim_start_matches_str,
    trim_str,
};

verus! {

/// A desktop application found in an applications directory.
#[derive(Debug, Clone, PartialEq)]
pub struct AppItem {
    pub name: String,
    pub icon: String,
    pub description: String,
    pub desktop_file: String,
    pub full_path: String,
}

/// The mathematical image of an application entry.
pub struct AppItemData {
    pub name: Seq<char>,
    pub icon: Seq<char>,
    pub description: Seq<char>,
    pub desktop_file: Seq<char>,
    pub full_path: Seq<char>,
}

impl View for AppItem {
    type V = AppItemData;

    open spec fn view(&self) -> AppItemData {
        AppItemData {
            name: self.name@,
            icon: self.icon@,
            description: self.description@,
            desktop_file: self.desktop_file@,
            full_path: self.full_path@,
        }
    }
}

impl DeepView for AppItem {
    type V = AppItemData;

    open spec fn deep_view(&self) -> AppItemData {
        self.view()
    }
}

/// An installed package, a name and a version.
#[derive(Debug, Clone, PartialEq)]
pub struct PackageItem {
    pub name: String,
    pub version: String,
}

/// The mathematical image of a package entry.
pub struct PackageItemData {
    pub name: Seq<char>,
    pub version: Seq<char>,
}

impl View for PackageItem {
    type V = PackageItemData;

    open spec fn view(&self) -> PackageItemData {
        PackageItemData { name: self.name@, version: self.version@ }
    }
}

impl DeepView for PackageItem {
    type V = PackageItemData;

    open spec fn deep_view(&self) -> PackageItemData {
        self.view()
    }
}

// ---------- desktop entries ----------

/// What a scan of a desktop entry has gathered so far.
pub struct DesktopScan {
    pub name: Seq<char>,
    pub icon: Seq<char>,
    pub comment: Seq<char>,
    pub no_display: bool,
    pub type_app: bool,
}

/// Nothing gathered yet.
pub open spec fn desktop_scan_init() -> DesktopScan {
    DesktopScan {
        name: Seq::empty(),
        icon: Seq::empty(),
        comment: Seq::empty(),
        no_display: false,
        type_app: false,
    }
}

/// One line of a desktop entry folded into the scan: the first
/// `Name=`, `Icon=` and `Comment=` lines win, and exact
/// `NoDisplay=true` and `Type=Application` lines set their flags.
pub open spec fn desktop_scan_step(st: DesktopScan, line: Seq<char>) -> DesktopScan {
    let t = trim_spec(line);
    if is_prefix(t, "Name="@) && st.name.len() == 0 {
        DesktopScan { name: strip_prefix_all(t, "Name="@), ..st }
    } else if is_prefix(t, "Icon="@) && st.icon.len() == 0 {
        DesktopScan { icon: strip_prefix_all(t, "Icon="@), ..st }
    } else if is_prefix(t, "Comment="@) && st.comment.len() == 0 {
        DesktopScan { comment: strip_prefix_all(t, "Comment="@), ..st }
    } else if t == "NoDisplay=true"@ {
        DesktopScan { no_display: true, ..st }
    } else if t == "Type=Application"@ {
        DesktopScan { type_app: true, ..st }
    } else {
        st
    }
}

/// The whole entry folded, line by line.
pub open spec fn desktop_scan(lines: Seq<Seq<char>>) -> DesktopScan
    decreases lines.len(),
{
    if lines.len() == 0 {
        desktop_scan_init()
    } else {
        desktop_scan_step(desktop_scan(lines.drop_last()), lines.last())
    }
}

/// An entry yields an application only when it has a name, is not
/// hidden, and declares itself an application.
pub open spec fn desktop_accepts(st: DesktopScan) -> bool {
    st.name.len() > 0 && !st.no_display && st.type_app
}

/// Parse a desktop entry's text into an application item carrying the
/// given file name and path, or nothing when the entry has no name,
/// hides itself, or is not an application.
pub fn parse_desktop_entry(content: &str, desktop_file: String, full_path: String) -> (r: Option<
    AppItem,
>)
    ensures
        ({
            let st = desktop_scan(lines_spec(content@));
            match r {
                Some(a) => desktop_accepts(st) && a@.name == st.name && a@.icon == st.icon
                    && a@.description == st.comment && a@.desktop_file == desktop_file@
                    && a@.full_path == full_path@,
                None => !desktop_accepts(st),
            }
        }),
{
    let lines = lines_of(content);
    let ghost lv = lines.deep_view();
    let mut name = String::new();
    let mut icon = String::new();
    let mut comment = String::new();
    let mut no_display = false;
    let mut type_app = false;
    let mut li: usize = 0;
    proof {
        assert(lv.take(0) =~= Seq::<Seq<char>>::empty());
    }
    while li < lines.len()
        invariant
            li <= lines.len(),
            lv == lines.deep_view(),
            lv.len() == lines.len(),
            name@ == desktop_scan(lv.take(li as int)).name,
            icon@ == desktop_scan(lv.take(li as int)).icon,
            comment@ == desktop_scan(lv.take(li as int)).comment,
            no_display == desktop_scan(lv.take(li as int)).no_display,
            type_app == desktop_scan(lv.take(li as int)).type_app,
        decreases lines.len() - li,
    {
        proof {
            assert(lv.take(li + 1).drop_last() =~= lv.take(li as int));
            assert(lv.take(li + 1).last() == lv[li as int]);
            assert(lines@[li as int]@ == lv[li as int]);
        }
        let trimmed = trim_str(lines[li].as_str());
        if starts_with_str(trimmed.as_str(), "Name=") && name.as_str().unicode_len() == 0 {
            name = trim_start_matches_str(trimmed.as_str(), "Name=");
        } else if starts_with_str(trimmed.as_str(), "Icon=") && icon.as_str().unicode_len() == 0 {
            icon = trim_start_matches_str(trimmed.as_str(), "Icon=");
        } else if starts_with_str(trimmed.as_str(), "Comment=") && comment.as_str().unicode_len()
            == 0 {
            comment = trim_start_matches_str(trimmed.as_str(), "Comment=");
        } else if str_eq(trimmed.as_str(), "NoDisplay=true") {
            no_display = true;
        } else if str_eq(trimmed.as_str(), "Type=Application") {
            type_app = true;
        }
        li += 1;
    }
    proof {
        assert(lv.take(lines.len() as int) =~= lv);
    }
    if name.as_str().unicode_len() == 0 || no_display || !type_app {
        return None;
    }
    Some(AppItem { name, icon, description: comment, desktop_file, full_path })
}

// ---------- package listings ----------

/// The package a listing line denotes: its first two whitespace
/// tokens, name and version; lines with fewer tokens are skipped.
pub open spec fn package_row(line: Seq<char>) -> Option<PackageItemData> {
    let t = tokens(line);
    if t.len() >= 2 {
        Some(PackageItemData { name: t[0], version: t[1] })
    } else {
        None
    }
}

/// The packages of all well-shaped lines, in listing order.
pub open spec fn package_rows(lines: Seq<Seq<char>>) -> Seq<PackageItemData>
    decreases lines.len(),
{
    if lines.len() == 0 {
        Seq::empty()
    } else {
        let rest = package_rows(lines.drop_last());
        match package_row(lines.last()) {
            Some(p) => rest.push(p),
            None => rest,
        }
    }
}

/// Parse the package manager's `name version` listing.
pub fn parse_package_list(text: &str) -> (r: Vec<PackageItem>)
    ensures
        r.deep_view() == package_rows(lines_spec(text@)),
{
    let lines = lines_of(text);
    let ghost lv = lines.deep_view();
    let mut r: Vec<PackageItem> = Vec::new();
    let mut li: usize = 0;
    proof {
        assert(lv.take(0) =~= Seq::<Seq<char>>::empty());
    }
    while li < lines.len()
        invariant
            li <= lines.len(),
            lv == lines.deep_view(),
            lv.len() == lines.len(),
            r.deep_view() == package_rows(lv.take(li as int)),
        decreases lines.len() - li,
    {
        let ghost done = lv.take(li as int);
        proof {
            assert(lv.take(li + 1).drop_last() =~= done);
            assert(lv.take(li + 1).last() == lv[li as int]);
            assert(lines@[li as int]@ == lv[li as int]);
        }
        let parts = split_whitespace_str(lines[li].as_str());
        if parts.len() >= 2 {
            proof {
                assert(parts.deep_view()[0] == parts@[0]@);
                assert(parts.deep_view()[1] == parts@[1]@);
            }
            let ghost r0 = r.deep_view();
            let item = PackageItem { name: parts[0].clone(), version: parts[1].clone() };
            let ghost iv = item@;
            r.push(item);
            proof {
                assert(package_rows(lv.take(li + 1)) == package_rows(done).push(iv));
                assert(r.deep_view() =~= r0.push(iv));
            }
        } else {
            proof {
                assert(package_rows(lv.take(li + 1)) == package_rows(done));
            }
        }
        li += 1;
    }
    proof {
        assert(lv.take(lines.len() as int) =~= lv);
    }
    r
}

// ---------- package ownership ----------

/// The text between the first ` is owned by ` and the next one, or to
/// the end: the second piece of the ownership report, where the owning
/// package stands.
pub open spec fn owner_second_piece(s: Seq<char>) -> Option<Seq<char>> {
    let sep = " is owned by "@;
    let i0 = first_sub(s, sep);
    if i0 < 0 {
        None
    } else {
        let rest = s.skip(i0 + sep.len());
        let i1 = first_sub(rest, sep);
        if i1 < 0 {
            Some(rest)
        } else {
            Some(rest.take(i1))
        }
    }
}

/// Pull the owning package's name out of the ownership report: the
/// first whitespace token after ` is owned by `.
pub fn parse_owner_package(stdout: &str) -> (r: Result<String, String>)
    ensures
        match r {
            Ok(name) => ({
                &&& owner_second_piece(stdout@) is Some
                &&& tokens(owner_second_piece(stdout@)->Some_0).len() > 0
                &&& name@ == tokens(owner_second_piece(stdout@)->Some_0)[0]
            }),
            Err(m) => match owner_second_piece(stdout@) {
                None => m@ == "Could not parse package owner"@,
                Some(piece) => tokens(piece).len() == 0 && m@ == "Could not parse package name"@,
            },
        },
{
    let len = stdout.unicode_len();
    let sep = " is owned by ";
    let seplen = sep.unicode_len();
    let i0 = match find_substr(stdout, sep) {
        None => {
            return Err(String::from_str("Could not parse package owner"));
        },
        Some(i) => i,
    };
    proof {
        crate::text::lemma_first_sub_bounds(stdout@, sep@);
    }
    let rest = stdout.substring_char(i0 + seplen, len);
    proof {
        assert(rest@ =~= stdout@.skip(i0 + sep@.len()));
    }
    let piece = match find_substr(rest, sep) {
        None => rest,
        Some(i1) => {
            proof {
                crate::text::lemma_first_sub_bounds(rest@, sep@);
            }
            rest.substring_char(0, i1)
        },
    };
    proof {
        if first_sub(rest@, sep@) >= 0 {
            assert(piece@ =~= rest@.take(first_sub(rest@, sep@)));
        }
    }
    let parts = split_whitespace_str(piece);
    if parts.len() == 0 {
        return Err(String::from_str("Could not parse package name"));
    }
    proof {
        assert(parts.deep_view()[0] == parts@[0]@);
    }
    Ok(parts[0].clone())
}

// ---------- ordering applications ----------

/// What `str::to_lowercase` yields for a string; the result depends on
/// the characters alone.
pub uninterp spec fn lower_of(s: Seq<char>) -> Seq<char>;

/// Relies on `str::to_lowercase`: a deterministic lowercase rendering
/// of the characters.
#[verifier::external_body]
fn lowercase(s: &str) -> (r: String)
    ensures
        r@ == lower_of(s@),
{
    s.to_lowercase()
}

/// Lexicographic order on the characters' code points, `a` before or
/// equal to `b`; for strings this is the order their UTF-8 bytes
/// compare in.
pub open spec fn lex_le(a: Seq<char>, b: Seq<char>) -> bool
    decreases a.len(),
{
    if a.len() == 0 {
        true
    } else if b.len() == 0 {
        false
    } else if a[0] == b[0] {
        lex_le(a.drop_first(), b.drop_first())
    } else {
        (a[0] as u32) < (b[0] as u32)
    }
}

proof fn lemma_lex_le_skip(a: Seq<char>, b: Seq<char>, i: int)
    requires
        0 <= i <= a.len(),
        i <= b.len(),
        forall|j: int| 0 <= j < i ==> a[j] == b[j],
    ensures
        lex_le(a, b) == lex_le(a.skip(i), b.skip(i)),
    decreases i,
{
    if i > 0 {
        assert(a.len() > 0 && b.len() > 0);
        assert(a[0] == b[0]);
        assert(forall|j: int| 0 <= j < i - 1 ==> a.drop_first()[j] == a[j + 1]);
        assert(forall|j: int| 0 <= j < i - 1 ==> b.drop_first()[j] == b[j + 1]);
        lemma_lex_le_skip(a.drop_first(), b.drop_first(), i - 1);
        assert(a.drop_first().skip(i - 1) =~= a.skip(i));
        assert(b.drop_first().skip(i - 1) =~= b.skip(i));
    } else {
        assert(a.skip(0) =~= a);
        assert(b.skip(0) =~= b);
    }
}

/// Compare two strings in the lexicographic order of their characters.
pub fn str_le(a: &str, b: &str) -> (r: bool)
    ensures
        r == lex_le(a@, b@),
{
    let alen = a.unicode_len();
    let blen = b.unicode_len();
    let mut i: usize = 0;
    while i < alen && i < blen
        invariant
            alen == a@.len(),
            blen == b@.len(),
            i <= alen,
            i <= blen,
            forall|j: int| 0 <= j < i ==> a@[j] == b@[j],
        decreases alen - i,
    {
        let ca = a.get_char(i);
        let cb = b.get_char(i);
        if ca != cb {
            proof {
                lemma_lex_le_skip(a@, b@, i as int);
                assert(a@.skip(i as int)[0] == a@[i as int]);
                assert(b@.skip(i as int)[0] == b@[i as int]);
            }
            return (ca as u32) < (cb as u32);
        }
        i += 1;
    }
    proof {
        lemma_lex_le_skip(a@, b@, i as int);
        if i == alen {
            assert(a@.skip(i as int).len() == 0);
        } else {
            assert(b@.skip(i as int).len() == 0);
            assert(a@.skip(i as int).len() > 0);
        }
    }
    alen <= blen
}

/// Stable insertion by lowercased name: the new entry goes after every
/// entry whose key is not strictly greater.
pub open spec fn insert_app(sorted: Seq<AppItemData>, n: AppItemData) -> Seq<AppItemData>
    decreases sorted.len(),
{
    if sorted.len() == 0 {
        seq![n]
    } else if !lex_le(lower_of(sorted[0].name), lower_of(n.name)) {
        seq![n] + sorted
    } else {
        seq![sorted[0]] + insert_app(sorted.drop_first(), n)
    }
}

/// Stable sort of application entries by lowercased name, entries with
/// equal keys keeping their scan order.
pub open spec fn sort_apps(s: Seq<AppItemData>) -> Seq<AppItemData>
    decreases s.len(),
{
    if s.len() == 0 {
        Seq::empty()
    } else {
        insert_app(sort_apps(s.drop_last()), s.last())
    }
}

proof fn lemma_insert_app_at(s: Seq<AppItemData>, n: AppItemData, i: int)
    requires
        0 <= i < s.len(),
        !lex_le(lower_of(s[i].name), lower_of(n.name)),
        forall|j: int| 0 <= j < i ==> lex_le(lower_of(s[j].name), lower_of(n.name)),
    ensures
        insert_app(s, n) == s.insert(i, n),
    decreases i,
{
    if i == 0 {
        assert(seq![n] + s =~= s.insert(0, n));
    } else {
        assert(lex_le(lower_of(s[0].name), lower_of(n.name)));
        assert(s.drop_first()[i - 1] == s[i]);
        assert(forall|j: int| 0 <= j < i - 1 ==> s.drop_first()[j] == s[j + 1]);
        lemma_insert_app_at(s.drop_first(), n, i - 1);
        assert(seq![s[0]] + s.drop_first().insert(i - 1, n) =~= s.insert(i, n));
    }
}

proof fn lemma_insert_app_end(s: Seq<AppItemData>, n: AppItemData)
    requires
        forall|j: int| 0 <= j < s.len() ==> lex_le(lower_of(s[j].name), lower_of(n.name)),
    ensures
        insert_app(s, n) == s.push(n),
    decreases s.len(),
{
    if s.len() == 0 {
        assert(insert_app(s, n) =~= s.push(n));
    } else {
        assert(forall|j: int| 0 <= j < s.drop_first().len() ==> s.drop_first()[j] == s[j + 1]);
        lemma_insert_app_end(s.drop_first(), n);
        assert(seq![s[0]] + s.drop_first().push(n) =~= s.push(n));
    }
}

fn insert_app_exec(out: &mut Vec<AppItem>, n: AppItem)
    ensures
        final(out).deep_view() == insert_app(old(out).deep_view(), n@),
{
    let ghost dv0 = out.deep_view();
    let key = lowercase(n.name.as_str());
    let mut i: usize = 0;
    while i < out.len()
        invariant
            i <= out.len(),
            out.deep_view() == dv0,
            out == old(out),
            key@ == lower_of(n@.name),
            forall|j: int| 0 <= j < i ==> lex_le(lower_of(dv0[j].name), lower_of(n@.name)),
        decreases out.len() - i,
    {
        let head_key = lowercase(out[i].name.as_str());
        if !str_le(head_key.as_str(), key.as_str()) {
            proof {
                lemma_insert_app_at(dv0, n@, i as int);
            }
            out.insert(i, n);
            proof {
                assert(out.deep_view() =~= dv0.insert(i as int, n@));
            }
            return ;
        }
        i += 1;
    }
    proof {
        lemma_insert_app_end(dv0, n@);
    }
    out.push(n);
    proof {
        assert(out.deep_view() =~= dv0.push(n@));
    }
}

/// Sort application entries by lowercased name, stably.
pub fn sort_apps_by_name(apps: Vec<AppItem>) -> (r: Vec<AppItem>)
    ensures
        r.deep_view() == sort_apps(apps.deep_view()),
{
    let ghost av = apps.deep_view();
    let mut work = apps;
    let mut out: Vec<AppItem> = Vec::new();
    proof {
        assert(av.take(0) =~= Seq::<AppItemData>::empty());
    }
    while work.len() > 0
        invariant
            work.deep_view() == av.skip(av.len() - work.len() as int),
            work.len() <= av.len(),
            out.deep_view() == sort_apps(av.take(av.len() - work.len() as int)),
        decreases work.len(),
    {
        let ghost k = av.len() - work.len() as int;
        let ghost w0 = work@;
        let ghost wdv0 = work.deep_view();
        let item = work.remove(0);
        proof {
            assert(item@ == wdv0[0]);
            assert(wdv0[0] == av.skip(k)[0]);
            assert(av.skip(k)[0] == av[k]);
            assert forall|i: int| 0 <= i < work.deep_view().len() implies work.deep_view()[i]
                == av.skip(k + 1)[i] by {
                assert(work@[i] == w0[i + 1]);
                assert(wdv0[i + 1] == w0[i + 1].deep_view());
                assert(wdv0[i + 1] == av.skip(k)[i + 1]);
                assert(av.skip(k)[i + 1] == av[k + 1 + i]);
                assert(av.skip(k + 1)[i] == av[k + 1 + i]);
            }
            assert(work.deep_view() =~= av.skip(k + 1));
            assert(av.take(k + 1).drop_last() =~= av.take(k));
            assert(av.take(k + 1).last() == av[k]);
        }
        insert_app_exec(&mut out, item);
    }
    proof {
        assert(av.take(av.len() as int) =~= av);
    }
    out
}

/// The command line that removes a package.
pub fn uninstall_command(name: &str) -> (r: String)
    ensures
        r@ == "sudo pacman -R "@ + name@,
{
    let mut r = String::from_str("sudo pacman -R ");
    r.append(name);
    r
}

} // verus!
