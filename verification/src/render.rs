use crate::digest::hash_file;
use crate::digest::hex_digit;
use crate::digest::hex_digit_str;
use crate::digest::hex_of;
use crate::digest::sha1_of;
use crate::digest::sha256_of;
use crate::digest::spec_hashed;
use crate::digest::HashedFile;
use crate::model::file_views;
use crate::model::issue_views;
use crate::model::spec_month_name;
use crate::model::year_views;
use crate::model::File;
use crate::model::Files;
use crate::model::Issue;
use crate::model::IssueV;
use crate::model::Mirror;
use crate::model::Year;
use crate::model::YearV;
use vstd::prelude::*;
use vstd::string::StringExecFns;

verus! {

/// Decimal digits of a number, most significant first.
pub open spec fn dec_of(n: nat) -> Seq<char>
    decreases n,
{
    if n < 10 {
        seq![hex_digit(n as u8)]
    } else {
        dec_of(n / 10).push(hex_digit((n % 10) as u8))
    }
}

/// Decimal digits, zero-padded on the left to a width of two.
pub open spec fn dec2_of(n: nat) -> Seq<char> {
    if n < 10 {
        seq!['0', hex_digit(n as u8)]
    } else {
        dec_of(n)
    }
}

/// Appends the decimal rendering of a number.
fn push_dec(s: &mut String, n: u16)
    ensures
        final(s)@ == old(s)@ + dec_of(n as nat),
    decreases n,
{
    if n < 10 {
        s.append(hex_digit_str(n as u8));
    } else {
        assert(n / 10 < n && n / 10 >= 1);
        push_dec(s, n / 10);
        s.append(hex_digit_str((n % 10) as u8));
        proof {
            assert(s@ =~= old(s)@ + dec_of(n as nat));
        }
    }
}

/// Appends the decimal rendering of a volume number, zero-padded to width two.
fn push_dec2(s: &mut String, n: u8)
    ensures
        final(s)@ == old(s)@ + dec2_of(n as nat),
{
    if n < 10 {
        s.append("0");
        s.append(hex_digit_str(n));
        proof {
            reveal_strlit("0");
            assert(s@ =~= old(s)@ + dec2_of(n as nat));
        }
    } else {
        push_dec(s, n as u16);
    }
}

/// One digestA line of the files block.
pub open spec fn sha1_line(name: Seq<char>, digest: Seq<char>) -> Seq<char> {
    "SHA1("@ + digest + ") = <a href=\"./files/"@ + name + "\">"@ + name + "</a>\n"@
}

/// One digestB line of the files block.
pub open spec fn sha256_line(name: Seq<char>, digest: Seq<char>) -> Seq<char> {
    "SHA256("@ + digest + ") = <a href=\"./files/"@ + name + "\">"@ + name + "</a>\n"@
}

/// The digestA lines of an issue's files, one per file, in declared order.
pub open spec fn spec_sha1_lines(files: Seq<Seq<char>>, cs: Seq<Seq<u8>>) -> Seq<Seq<char>> {
    Seq::new(files.len(), |i: int| sha1_line(files[i], hex_of(sha1_of(cs[i]))))
}

/// The digestB lines of an issue's files, one per file, in declared order.
pub open spec fn spec_sha256_lines(files: Seq<Seq<char>>, cs: Seq<Seq<u8>>) -> Seq<Seq<char>> {
    Seq::new(files.len(), |i: int| sha256_line(files[i], hex_of(sha256_of(cs[i]))))
}

/// Concatenation of a sequence of text fragments, in order.
pub open spec fn concat_lines(lines: Seq<Seq<char>>) -> Seq<char>
    decreases lines.len(),
{
    if lines.len() == 0 {
        Seq::empty()
    } else {
        concat_lines(lines.drop_last()) + lines.last()
    }
}

/// The files block of one issue: all digestA lines, a blank separator, then
/// all digestB lines, both blocks walking the files in the same order.
pub open spec fn spec_render_files(files: Seq<Seq<char>>, cs: Seq<Seq<u8>>) -> Seq<char> {
    "<pre>"@ + concat_lines(spec_sha1_lines(files, cs)) + "\n"@ + concat_lines(
        spec_sha256_lines(files, cs),
    ) + "</pre>"@
}

/// One issue entry: a link to its first file labelled with the volume
/// number, then month, year, description, and the files block.
pub open spec fn spec_render_issue(i: IssueV, cs: Seq<Seq<u8>>) -> Seq<char> {
    "<h3><a href=\"./files/"@ + i.files[0] + "\">POC||GTFO 0x"@ + dec2_of(i.volume as nat)
        + "</a></h3><ul><li>"@ + spec_month_name(i.month) + "\n "@ + dec_of(i.year as nat)
        + "<li>"@ + i.description + "<li>"@ + spec_render_files(i.files, cs) + "</ul>\n"@
}

/// The issue list of one year entry, each issue behind a list marker.
pub open spec fn spec_render_issues(issues: Seq<IssueV>, cs: Seq<Seq<Seq<u8>>>) -> Seq<char>
    decreases issues.len(),
{
    if issues.len() == 0 {
        Seq::empty()
    } else {
        spec_render_issues(issues.drop_last(), cs.drop_last()) + "<li>"@ + spec_render_issue(
            issues.last(),
            cs.last(),
        )
    }
}

/// One year entry: the year heading and its issues.
pub open spec fn spec_render_year(y: YearV, cs: Seq<Seq<Seq<u8>>>) -> Seq<char> {
    "<h2>"@ + dec_of(y.year as nat) + "</h2><ul>"@ + spec_render_issues(y.issues, cs) + "</ul>"@
}

/// All year entries, in order.
pub open spec fn spec_render_years(ys: Seq<YearV>, cs: Seq<Seq<Seq<Seq<u8>>>>) -> Seq<char>
    decreases ys.len(),
{
    if ys.len() == 0 {
        Seq::empty()
    } else {
        spec_render_years(ys.drop_last(), cs.drop_last()) + spec_render_year(ys.last(), cs.last())
    }
}

/// The whole document: a fixed wrapper and title around the year entries.
pub open spec fn spec_render(ys: Seq<YearV>, cs: Seq<Seq<Seq<Seq<u8>>>>) -> Seq<char> {
    "<!doctype html><html><meta charset=\"utf-8\"><h1>International Journal of Proof-of-Concept or Get The Fuck Out (PoC||GTFO)</h1>"@
        + spec_render_years(ys, cs) + "</html>"@
}

/// The contents handed to the renderer follow the mirror's shape: one byte
/// sequence per file, grouped per issue, grouped per year entry.
pub open spec fn contents_match(ys: Seq<YearV>, cs: Seq<Seq<Seq<Seq<u8>>>>) -> bool {
    &&& cs.len() == ys.len()
    &&& forall|k: int| 0 <= k < ys.len() ==> (#[trigger] cs[k]).len() == ys[k].issues.len()
    &&& forall|k: int, j: int|
        0 <= k < ys.len() && 0 <= j < ys[k].issues.len() ==> (#[trigger] cs[k][j]).len()
            == ys[k].issues[j].files.len()
}

/// In the rendered files block the digestA lines and the digestB lines each
/// list the files exactly once per occurrence, in the issue's declared order,
/// and both blocks walk the files in the same order: line i of either block
/// links file i.
pub proof fn lemma_blocks_list_files_in_order(files: Seq<Seq<char>>, cs: Seq<Seq<u8>>)
    ensures
        spec_sha1_lines(files, cs).len() == files.len(),
        spec_sha256_lines(files, cs).len() == files.len(),
        forall|i: int|
            0 <= i < files.len() ==> #[trigger] spec_sha1_lines(files, cs)[i] == sha1_line(
                files[i],
                hex_of(sha1_of(cs[i])),
            ),
        forall|i: int|
            0 <= i < files.len() ==> #[trigger] spec_sha256_lines(files, cs)[i] == sha256_line(
                files[i],
                hex_of(sha256_of(cs[i])),
            ),
{
}

fn append_digest_line(doc: &mut String, digest: &str, name: &str, strong: bool)
    ensures
        strong ==> final(doc)@ == old(doc)@ + sha256_line(name@, digest@),
        !strong ==> final(doc)@ == old(doc)@ + sha1_line(name@, digest@),
{
    if strong {
        doc.append("SHA256(");
    } else {
        doc.append("SHA1(");
    }
    doc.append(digest);
    doc.append(") = <a href=\"./files/");
    doc.append(name);
    doc.append("\">");
    doc.append(name);
    doc.append("</a>\n");
    proof {
        if strong {
            assert(doc@ =~= old(doc)@ + sha256_line(name@, digest@));
        } else {
            assert(doc@ =~= old(doc)@ + sha1_line(name@, digest@));
        }
    }
}

fn render_files(doc: &mut String, files: &Files, cs: &Vec<Vec<u8>>)
    requires
        cs.deep_view().len() == files@.len(),
    ensures
        final(doc)@ == old(doc)@ + spec_render_files(files@, cs.deep_view()),
{
    let ghost fsv: Seq<Seq<char>> = files@;
    let ghost csv: Seq<Seq<u8>> = cs.deep_view();
    let fs: &[File] = files.inner();
    proof {
        assert(file_views(fs@) == fsv);
        assert(fs@.len() == fsv.len());
    }
    let mut hashed: Vec<HashedFile> = Vec::new();
    let mut i: usize = 0;
    while i < fs.len()
        invariant
            i <= fs@.len(),
            fs@.len() == fsv.len(),
            file_views(fs@) == fsv,
            csv == cs.deep_view(),
            csv.len() == fsv.len(),
            cs@.len() == csv.len(),
            hashed@.len() == i,
            forall|t: int|
                0 <= t < i ==> (#[trigger] hashed@[t])@ == spec_hashed(fsv[t], csv[t]),
        decreases fs@.len() - i,
    {
        let name = fs[i].name().to_owned();
        let h = hash_file(name, cs[i].as_slice());
        proof {
            assert(fs@[i as int]@ == fsv[i as int]);
            assert(cs@[i as int].deep_view() == csv[i as int]);
            assert(cs@[i as int].deep_view() =~= cs@[i as int]@);
            assert(h@ == spec_hashed(fsv[i as int], csv[i as int]));
        }
        hashed.push(h);
        i = i + 1;
    }
    doc.append("<pre>");
    let ghost base1: Seq<char> = old(doc)@ + "<pre>"@;
    let mut j: usize = 0;
    while j < hashed.len()
        invariant
            j <= hashed@.len(),
            hashed@.len() == fsv.len(),
            csv.len() == fsv.len(),
            forall|t: int|
                0 <= t < hashed@.len() ==> (#[trigger] hashed@[t])@ == spec_hashed(fsv[t], csv[t]),
            doc@ == base1 + concat_lines(spec_sha1_lines(fsv, csv).take(j as int)),
        decreases hashed@.len() - j,
    {
        append_digest_line(doc, hashed[j].digest_a.as_str(), hashed[j].name.as_str(), false);
        proof {
            let lines = spec_sha1_lines(fsv, csv);
            assert(lines.take(j + 1).drop_last() =~= lines.take(j as int));
            assert(lines.take(j + 1).last() == lines[j as int]);
            assert(lines[j as int] == sha1_line(fsv[j as int], hex_of(sha1_of(csv[j as int]))));
            assert(doc@ =~= base1 + concat_lines(lines.take(j + 1)));
        }
        j = j + 1;
    }
    proof {
        assert(spec_sha1_lines(fsv, csv).take(fsv.len() as int) =~= spec_sha1_lines(fsv, csv));
    }
    doc.append("\n");
    let ghost base2: Seq<char> = base1 + concat_lines(spec_sha1_lines(fsv, csv)) + "\n"@;
    let mut j: usize = 0;
    while j < hashed.len()
        invariant
            j <= hashed@.len(),
            hashed@.len() == fsv.len(),
            csv.len() == fsv.len(),
            forall|t: int|
                0 <= t < hashed@.len() ==> (#[trigger] hashed@[t])@ == spec_hashed(fsv[t], csv[t]),
            doc@ == base2 + concat_lines(spec_sha256_lines(fsv, csv).take(j as int)),
        decreases hashed@.len() - j,
    {
        append_digest_line(doc, hashed[j].digest_b.as_str(), hashed[j].name.as_str(), true);
        proof {
            let lines = spec_sha256_lines(fsv, csv);
            assert(lines.take(j + 1).drop_last() =~= lines.take(j as int));
            assert(lines.take(j + 1).last() == lines[j as int]);
            assert(lines[j as int] == sha256_line(fsv[j as int], hex_of(sha256_of(csv[j as int]))));
            assert(doc@ =~= base2 + concat_lines(lines.take(j + 1)));
        }
        j = j + 1;
    }
    proof {
        assert(spec_sha256_lines(fsv, csv).take(fsv.len() as int) =~= spec_sha256_lines(fsv, csv));
    }
    doc.append("</pre>");
    proof {
        assert(doc@ =~= old(doc)@ + spec_render_files(fsv, csv));
    }
}

fn render_issue(doc: &mut String, issue: &Issue, cs: &Vec<Vec<u8>>)
    requires
        cs.deep_view().len() == issue@.files.len(),
    ensures
        final(doc)@ == old(doc)@ + spec_render_issue(issue@, cs.deep_view()),
{
    let files = issue.files();
    let fs: &[File] = files.inner();
    proof {
        assert(file_views(fs@) == issue@.files);
        assert(fs@.len() == issue@.files.len());
        assert(fs@[0]@ == issue@.files[0]);
    }
    doc.append("<h3><a href=\"./files/");
    doc.append(fs[0].name());
    doc.append("\">POC||GTFO 0x");
    push_dec2(doc, issue.volume());
    doc.append("</a></h3><ul><li>");
    doc.append(issue.month().name());
    doc.append("\n ");
    push_dec(doc, issue.year());
    doc.append("<li>");
    doc.append(issue.description());
    doc.append("<li>");
    render_files(doc, files, cs);
    doc.append("</ul>\n");
    proof {
        assert(doc@ =~= old(doc)@ + spec_render_issue(issue@, cs.deep_view()));
    }
}

fn render_year(doc: &mut String, year: &Year, cs: &Vec<Vec<Vec<u8>>>)
    requires
        cs.deep_view().len() == year@.issues.len(),
        forall|j: int|
            0 <= j < year@.issues.len() ==> (#[trigger] cs.deep_view()[j]).len()
                == year@.issues[j].files.len(),
    ensures
        final(doc)@ == old(doc)@ + spec_render_year(year@, cs.deep_view()),
{
    let ghost isv: Seq<IssueV> = year@.issues;
    let ghost csv: Seq<Seq<Seq<u8>>> = cs.deep_view();
    let (y, issues) = year.inner();
    proof {
        assert(issue_views(issues@) == isv);
        assert(issues@.len() == isv.len());
        assert(cs@.len() == csv.len());
    }
    doc.append("<h2>");
    push_dec(doc, y);
    doc.append("</h2><ul>");
    let ghost base: Seq<char> = old(doc)@ + "<h2>"@ + dec_of(y as nat) + "</h2><ul>"@;
    proof {
        assert(spec_render_issues(isv.take(0), csv.take(0)) =~= Seq::<char>::empty());
        assert(doc@ =~= base + spec_render_issues(isv.take(0), csv.take(0)));
    }
    let mut j: usize = 0;
    while j < issues.len()
        invariant
            j <= issues@.len(),
            issues@.len() == isv.len(),
            issue_views(issues@) == isv,
            csv == cs.deep_view(),
            csv.len() == isv.len(),
            cs@.len() == csv.len(),
            forall|t: int|
                0 <= t < isv.len() ==> (#[trigger] csv[t]).len() == isv[t].files.len(),
            doc@ == base + spec_render_issues(isv.take(j as int), csv.take(j as int)),
        decreases issues@.len() - j,
    {
        doc.append("<li>");
        proof {
            assert(issues@[j as int]@ == isv[j as int]);
            assert(cs@[j as int].deep_view() == csv[j as int]);
        }
        render_issue(doc, &issues[j], &cs[j]);
        proof {
            assert(isv.take(j + 1).drop_last() =~= isv.take(j as int));
            assert(csv.take(j + 1).drop_last() =~= csv.take(j as int));
            assert(isv.take(j + 1).last() == isv[j as int]);
            assert(csv.take(j + 1).last() == csv[j as int]);
            assert(doc@ =~= base + spec_render_issues(isv.take(j + 1), csv.take(j + 1)));
        }
        j = j + 1;
    }
    proof {
        assert(isv.take(isv.len() as int) =~= isv);
        assert(csv.take(csv.len() as int) =~= csv);
    }
    doc.append("</ul>");
    proof {
        assert(doc@ =~= old(doc)@ + spec_render_year(year@, csv));
    }
}

/// Renders the grouped mirror as one HTML document. `contents` holds the
/// bytes of every referenced file, in the mirror's own shape; the digests
/// embedded in the output are computed from exactly those bytes.
pub fn render(mirror: &Mirror, contents: &Vec<Vec<Vec<Vec<u8>>>>) -> (doc: String)
    requires
        contents_match(mirror@, contents.deep_view()),
    ensures
        doc@ == spec_render(mirror@, contents.deep_view()),
{
    let ghost ysv: Seq<YearV> = mirror@;
    let ghost csv: Seq<Seq<Seq<Seq<u8>>>> = contents.deep_view();
    let years: &[Year] = mirror.inner();
    proof {
        assert(year_views(years@) == ysv);
        assert(years@.len() == ysv.len());
        assert(contents@.len() == csv.len());
    }
    let mut doc = String::new();
    doc.append(
        "<!doctype html><html><meta charset=\"utf-8\"><h1>International Journal of Proof-of-Concept or Get The Fuck Out (PoC||GTFO)</h1>",
    );
    let ghost base: Seq<char> =
        "<!doctype html><html><meta charset=\"utf-8\"><h1>International Journal of Proof-of-Concept or Get The Fuck Out (PoC||GTFO)</h1>"@;
    proof {
        assert(doc@ =~= base + spec_render_years(ysv.take(0), csv.take(0)));
    }
    let mut k: usize = 0;
    while k < years.len()
        invariant
            k <= years@.len(),
            years@.len() == ysv.len(),
            year_views(years@) == ysv,
            csv == contents.deep_view(),
            csv.len() == ysv.len(),
            contents@.len() == csv.len(),
            contents_match(ysv, csv),
            doc@ == base + spec_render_years(ysv.take(k as int), csv.take(k as int)),
        decreases years@.len() - k,
    {
        proof {
            assert(years@[k as int]@ == ysv[k as int]);
            assert(contents@[k as int].deep_view() == csv[k as int]);
            assert(forall|j: int|
                0 <= j < ysv[k as int].issues.len() ==> (#[trigger] csv[k as int][j]).len()
                    == ysv[k as int].issues[j].files.len());
        }
        render_year(&mut doc, &years[k], &contents[k]);
        proof {
            assert(ysv.take(k + 1).drop_last() =~= ysv.take(k as int));
            assert(csv.take(k + 1).drop_last() =~= csv.take(k as int));
            assert(ysv.take(k + 1).last() == ysv[k as int]);
            assert(csv.take(k + 1).last() == csv[k as int]);
            assert(doc@ =~= base + spec_render_years(ysv.take(k + 1), csv.take(k + 1)));
        }
        k = k + 1;
    }
    proof {
        assert(ysv.take(ysv.len() as int) =~= ysv);
        assert(csv.take(csv.len() as int) =~= csv);
    }
    doc.append("</html>");
    proof {
        assert(doc@ =~= spec_render(ysv, csv));
    }
    doc
}

} // verus!
