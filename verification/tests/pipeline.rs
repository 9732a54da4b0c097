use pocmirror::hash_file;
use pocmirror::render;
use pocmirror::Config;
use pocmirror::Error;
use pocmirror::File;
use pocmirror::Files;
use pocmirror::Issue;
use pocmirror::Mirror;
use pocmirror::Month;

fn issue(volume: u8, year: u16, month: Month, description: &str, files: &[&str]) -> Issue {
    let fs: Vec<File> = files.iter().map(|n| File::new(String::from(*n))).collect();
    Issue::new(volume, year, month, String::from(description), Files::new(fs)).unwrap()
}

fn line(block: &str, from: usize) -> &str {
    &block[from..from + block[from..].find('\n').unwrap()]
}

fn years_of(mirror: &Mirror) -> Vec<(u16, Vec<u8>)> {
    mirror
        .inner()
        .iter()
        .map(|y| {
            let (year, issues) = y.inner();
            (year, issues.iter().map(|i| i.volume()).collect())
        })
        .collect()
}

#[test]
fn month_names() {
    assert_eq!(Month::January.name(), "January");
    assert_eq!(Month::February.name(), "February");
    assert_eq!(Month::March.name(), "March");
    assert_eq!(Month::April.name(), "April");
    assert_eq!(Month::May.name(), "May");
    assert_eq!(Month::June.name(), "June");
    assert_eq!(Month::July.name(), "July");
    assert_eq!(Month::August.name(), "August");
    assert_eq!(Month::September.name(), "September");
    assert_eq!(Month::October.name(), "October");
    assert_eq!(Month::November.name(), "November");
    assert_eq!(Month::December.name(), "December");
}

#[test]
fn issue_with_no_files_fails_validation() {
    let r = Issue::new(1, 2010, Month::January, String::from("First"), Files::new(vec![]));
    assert!(matches!(r, Err(Error::InputError)));
}

#[test]
fn issue_accessors() {
    let i = issue(7, 2014, Month::June, "Seventh", &["x.pdf", "y.pdf"]);
    assert_eq!(i.volume(), 7);
    assert_eq!(i.year(), 2014);
    assert!(i.month() == Month::June);
    assert_eq!(i.description(), "Seventh");
    let names: Vec<&str> = i.files().inner().iter().map(|f| f.name()).collect();
    assert_eq!(names, vec!["x.pdf", "y.pdf"]);
    let owned = i.into_files();
    assert_eq!(owned.len(), 2);
    assert_eq!(owned.inner()[0].name(), "x.pdf");
}

#[test]
fn sort_orders_by_volume() {
    let c = Config::new(vec![
        issue(3, 2011, Month::May, "c", &["c.pdf"]),
        issue(1, 2010, Month::January, "a", &["a.pdf"]),
        issue(2, 2010, Month::March, "b", &["b.pdf"]),
    ]);
    let m = c.sort().transform();
    let ys = years_of(&m);
    assert_eq!(ys, vec![(2010, vec![1, 2]), (2011, vec![3])]);
}

#[test]
fn sort_orders_by_volume_any_input_order() {
    let perms: [[u8; 3]; 6] =
        [[1, 2, 3], [1, 3, 2], [2, 1, 3], [2, 3, 1], [3, 1, 2], [3, 2, 1]];
    for p in perms.iter() {
        let c = Config::new(
            p.iter()
                .map(|v| issue(*v, 2000 + *v as u16, Month::January, "d", &["f.pdf"]))
                .collect(),
        );
        let m = c.sort().transform();
        let ys = years_of(&m);
        assert_eq!(ys, vec![(2001, vec![1]), (2002, vec![2]), (2003, vec![3])]);
    }
}

#[test]
fn grouping_keeps_noncontiguous_years_apart() {
    // Volumes 1,2,3 carry years 2010,2011,2010: the sorted sequence has two
    // separate runs of 2010, and the output keeps them as two entries.
    let c = Config::new(vec![
        issue(1, 2010, Month::January, "a", &["a.pdf"]),
        issue(2, 2011, Month::March, "b", &["b.pdf"]),
        issue(3, 2010, Month::May, "c", &["c.pdf"]),
    ]);
    let m = c.sort().transform();
    let ys = years_of(&m);
    assert_eq!(ys, vec![(2010, vec![1]), (2011, vec![2]), (2010, vec![3])]);
}

#[test]
fn grouping_merges_contiguous_same_year() {
    let c = Config::new(vec![
        issue(2, 2010, Month::March, "b", &["b.pdf"]),
        issue(1, 2010, Month::January, "a", &["a.pdf"]),
    ]);
    let m = c.sort().transform();
    let ys = years_of(&m);
    assert_eq!(ys, vec![(2010, vec![1, 2])]);
}

#[test]
fn sort_is_stable_on_equal_volumes() {
    // Equal volumes should not occur in a well-formed catalog, but when they
    // do, the sort keeps their input order.
    let c = Config::new(vec![
        issue(5, 2001, Month::January, "first five", &["p.pdf"]),
        issue(5, 2002, Month::March, "second five", &["q.pdf"]),
        issue(3, 2000, Month::May, "three", &["r.pdf"]),
    ]);
    let m = c.sort().transform();
    let years: Vec<u16> = m.inner().iter().map(|y| y.inner().0).collect();
    assert_eq!(years, vec![2000, 2001, 2002]);
}

#[test]
fn transform_of_empty_catalog_is_empty() {
    let m = Config::new(vec![]).transform();
    assert_eq!(m.inner().len(), 0);
}

#[test]
fn hash_is_deterministic_and_fixed_width() {
    let content: Vec<u8> = b"some file content".to_vec();
    let h1 = hash_file(String::from("f.pdf"), &content);
    let h2 = hash_file(String::from("g.pdf"), &content);
    assert_eq!(h1.digest_a, h2.digest_a);
    assert_eq!(h1.digest_b, h2.digest_b);
    assert_eq!(h1.digest_a.len(), 40);
    assert_eq!(h1.digest_b.len(), 64);
}

#[test]
fn hash_known_values() {
    let h = hash_file(String::from("abc.txt"), &b"abc".to_vec());
    assert_eq!(h.name, "abc.txt");
    assert_eq!(h.digest_a, "a9993e364706816aba3e25717850c26c9cd0d89d");
    assert_eq!(h.digest_b, "ba7816bf8f01cfea414140de5dae2223b00361a396177a9cb410ff61f20015ad");
}

#[test]
fn hash_of_empty_content() {
    let h = hash_file(String::from("e"), &Vec::new());
    assert_eq!(h.digest_a, "da39a3ee5e6b4b0d3255bfef95601890afd80709");
    assert_eq!(h.digest_b, "e3b0c44298fc1c149afbf4c8996fb92427ae41e4649b934ca495991b7852b855");
}

fn scenario_mirror() -> (Mirror, Vec<Vec<Vec<Vec<u8>>>>) {
    let c = Config::new(vec![
        issue(2, 2010, Month::March, "Second", &["b.pdf", "c.pdf"]),
        issue(1, 2010, Month::January, "First", &["a.pdf"]),
    ]);
    let m = c.sort().transform();
    let contents: Vec<Vec<Vec<Vec<u8>>>> =
        vec![vec![vec![b"AAA".to_vec()], vec![b"BBB".to_vec(), b"CCC".to_vec()]]];
    (m, contents)
}

#[test]
fn end_to_end_scenario() {
    let (m, contents) = scenario_mirror();
    let ys = years_of(&m);
    assert_eq!(ys, vec![(2010, vec![1, 2])]);
    let doc = render(&m, &contents);

    assert!(doc.starts_with("<!doctype html><html>"));
    assert!(doc.ends_with("</html>"));
    assert!(doc.contains("<h2>2010</h2>"));
    let first = doc.find("POC||GTFO 0x01").expect("first issue heading");
    let second = doc.find("POC||GTFO 0x02").expect("second issue heading");
    assert!(first < second);
    assert!(doc.contains("January\n 2010<li>First"));
    assert!(doc.contains("March\n 2010<li>Second"));

    // The second issue's files block: two digestA lines, b.pdf before c.pdf,
    // then two digestB lines in the same file order.
    let block = &doc[second..];
    let sha1_b = block.find("SHA1(").expect("digestA line for b.pdf");
    let sha1_c = block[sha1_b + 1..].find("SHA1(").expect("digestA line for c.pdf") + sha1_b + 1;
    let sha256_b = block.find("SHA256(").expect("digestB line for b.pdf");
    let sha256_c =
        block[sha256_b + 1..].find("SHA256(").expect("digestB line for c.pdf") + sha256_b + 1;
    assert!(sha1_b < sha1_c && sha1_c < sha256_b && sha256_b < sha256_c);
    assert!(line(block, sha1_b).contains("b.pdf"));
    assert!(line(block, sha1_c).contains("c.pdf"));
    assert!(line(block, sha256_b).contains("b.pdf"));
    assert!(line(block, sha256_c).contains("c.pdf"));

    let hb = hash_file(String::from("b.pdf"), &b"BBB".to_vec());
    assert!(doc.contains(&format!("SHA1({}) = <a href=\"./files/b.pdf\">b.pdf</a>", hb.digest_a)));
    assert!(doc.contains(&format!(
        "SHA256({}) = <a href=\"./files/b.pdf\">b.pdf</a>",
        hb.digest_b
    )));
}

#[test]
fn each_file_gets_one_line_per_block_in_order() {
    let (m, contents) = scenario_mirror();
    let doc = render(&m, &contents);
    // Three file references in the catalog: three digestA lines and three
    // digestB lines in the whole document.
    assert_eq!(doc.matches("SHA1(").count(), 3);
    assert_eq!(doc.matches("SHA256(").count(), 3);
    for name in ["a.pdf", "b.pdf", "c.pdf"] {
        // Once per occurrence in each block; each line shows the name twice
        // (link target and link text), plus once in a primary-download
        // heading for a.pdf and b.pdf.
        let lines: Vec<&str> = doc
            .lines()
            .filter(|l| l.contains(name) && (l.contains("SHA1(") || l.contains("SHA256(")))
            .collect();
        assert_eq!(lines.iter().filter(|l| l.contains("SHA1(")).count(), 1);
        assert_eq!(lines.iter().filter(|l| l.contains("SHA256(")).count(), 1);
    }
}

#[test]
fn rendered_document_exact_for_single_issue() {
    let c = Config::new(vec![issue(12, 2013, Month::December, "Solo", &["one.bin"])]);
    let m = c.sort().transform();
    let contents = vec![vec![vec![b"payload".to_vec()]]];
    let doc = render(&m, &contents);
    let h = hash_file(String::from("one.bin"), &b"payload".to_vec());
    let expected = format!(
        "<!doctype html><html><meta charset=\"utf-8\"><h1>International Journal of \
         Proof-of-Concept or Get The Fuck Out (PoC||GTFO)</h1><h2>2013</h2><ul><li>\
         <h3><a href=\"./files/one.bin\">POC||GTFO 0x12</a></h3><ul><li>December\n 2013\
         <li>Solo<li><pre>SHA1({}) = <a href=\"./files/one.bin\">one.bin</a>\n\n\
         SHA256({}) = <a href=\"./files/one.bin\">one.bin</a>\n</pre></ul>\n</ul></html>",
        h.digest_a, h.digest_b
    );
    assert_eq!(doc, expected);
}

#[test]
fn volume_label_is_zero_padded() {
    let c = Config::new(vec![issue(5, 2011, Month::July, "Fifth", &["v.pdf"])]);
    let m = c.sort().transform();
    let doc = render(&m, &vec![vec![vec![b"V".to_vec()]]]);
    assert!(doc.contains("POC||GTFO 0x05"));
}

#[test]
fn empty_mirror_renders_wrapper_only() {
    let m = Config::new(vec![]).transform();
    let doc = render(&m, &Vec::new());
    assert_eq!(
        doc,
        "<!doctype html><html><meta charset=\"utf-8\"><h1>International Journal of \
         Proof-of-Concept or Get The Fuck Out (PoC||GTFO)</h1></html>"
    );
}
