//! Parser for pacman's local database format.
//!
//! `/var/lib/pacman/local/<name>-<version>/desc` is a flat file of `%KEY%`
//! headers, each followed by one value per line until a blank line. Parsing it
//! directly is roughly two orders of magnitude faster than shelling out to
//! `pacman -Qi` for every package, and it keeps this crate free of a runtime
//! dependency on pacman's output format staying stable across versions.
//!
//! This module is pure: it turns text into values.
use vstd::prelude::*;

use crate::model::{InstallReason, Package};
use crate::model;
use crate::number;
use crate::number::{parse_i64, parse_u64};
use crate::split;
use crate::split::{before_first, joined, rsplit_once, split_lines};
use crate::text;
use crate::text::{chars_of, same, trimmed, trimmed_end_of, trimmed_start_of};

verus! {

/// A section: its key, and its values in order.
pub type Section = (Seq<char>, Seq<Seq<char>>);

/// Whether a line opens a section: a `%` at either end.
pub open spec fn is_header(line: Seq<char>) -> bool {
    line.len() >= 2 && line[0] == '%' && line.last() == '%'
}

/// The key that a header names: what stands between the percent signs.
pub open spec fn header_key(line: Seq<char>) -> Seq<char> {
    text::trim_end_where(text::trim_start_where(line, text::just('%')), text::just('%'))
}

/// The sections that are complete after some lines, and the one still open.
///
/// A header closes the open section and opens its own. A blank line closes the
/// open section. Any other line is a value of the open section, and is dropped
/// where none is open.
pub open spec fn reading(lines: Seq<Seq<char>>) -> (Seq<Section>, Option<Section>)
    decreases lines.len(),
{
    if lines.len() == 0 {
        (Seq::empty(), None)
    } else {
        let (done, open) = reading(lines.drop_last());
        let line = text::trim_end_where(lines.last(), text::just('\r'));
        let closed = match open {
            Some(section) => done.push(section),
            None => done,
        };
        if is_header(line) {
            (closed, Some((header_key(line), Seq::empty())))
        } else if line.len() == 0 {
            (closed, None)
        } else {
            match open {
                Some((key, values)) => (done, Some((key, values.push(line)))),
                None => (done, None),
            }
        }
    }
}

/// The sections of a `desc` or `files` text.
pub open spec fn sections_of(s: Seq<char>) -> Seq<Section> {
    let (done, open) = reading(split::lines(s));
    match open {
        Some(section) => done.push(section),
        None => done,
    }
}

/// The views of a list of sections.
pub open spec fn section_views(v: Seq<(String, Vec<String>)>) -> Seq<Section> {
    Seq::new(v.len(), |i: int| (v[i].0@, text::texts(v[i].1@)))
}

/// Split a `desc` file into `(key, values)` sections.
///
/// Unknown keys are preserved rather than dropped so that a pacman version
/// which adds a field does not silently lose data. Malformed input yields
/// fewer sections rather than an error: a single unreadable package must not
/// stop the whole scan.
pub fn sections(text: &str) -> (r: Vec<(String, Vec<String>)>)
    ensures
        section_views(r@) == sections_of(text@),
{
    let all = split_lines(text);
    let ghost ls = split::lines(text@);
    let mut done: Vec<(String, Vec<String>)> = Vec::new();
    let mut open = false;
    let mut key = String::new();
    let mut values: Vec<String> = Vec::new();
    let mut i: usize = 0;
    proof {
        assert(ls.take(0) =~= Seq::empty());
        assert(section_views(done@) =~= Seq::empty());
    }
    while i < all.len()
        invariant
            i <= all.len(),
            text::texts(all@) == ls,
            section_views(done@) == reading(ls.take(i as int)).0,
            open == (reading(ls.take(i as int)).1 is Some),
            open ==> reading(ls.take(i as int)).1 == Some((key@, text::texts(values@))),
        decreases all.len() - i,
    {
        proof {
            assert(ls.take(i + 1).drop_last() =~= ls.take(i as int));
            assert(ls.take(i + 1).last() == all@[i as int]@);
        }
        let line = trimmed_end_of(all[i].as_str(), '\r');
        let chars = chars_of(line);
        let n: usize = chars.len();
        let header = n >= 2 && chars[0] == '%' && chars[n - 1] == '%';
        if header || n == 0 {
            if open {
                let ghost before = done@;
                let mut taken: Vec<String> = Vec::new();
                std::mem::swap(&mut taken, &mut values);
                done.push((key.clone(), taken));
                assert(section_views(done@) =~= section_views(before).push(
                    (key@, text::texts(taken@)),
                ));
            }
            open = false;
            if header {
                key = trimmed_end_of(trimmed_start_of(line, '%'), '%').to_owned();
                values = Vec::new();
                open = true;
                assert(text::texts(values@) =~= Seq::empty());
            }
        } else if open {
            let ghost before = values@;
            values.push(line.to_owned());
            assert(text::texts(values@) =~= text::texts(before).push(line@));
        }
        i += 1;
    }
    assert(ls.take(ls.len() as int) =~= ls);
    if open {
        let ghost before = done@;
        let ghost kept = text::texts(values@);
        done.push((key, values));
        assert(section_views(done@) =~= section_views(before).push((key@, kept)));
    }
    done
}

/// The first value of a section, or nothing.
pub open spec fn first_value(values: Seq<Seq<char>>) -> Seq<char> {
    if values.len() == 0 {
        Seq::empty()
    } else {
        values[0]
    }
}

/// `package` with what one section says of it.
pub open spec fn with_section(package: model::PackageView, section: Section) -> model::PackageView {
    let (key, values) = section;
    let first = first_value(values);
    if key == "NAME"@ {
        model::PackageView { name: first, ..package }
    } else if key == "VERSION"@ {
        model::PackageView { version: first, ..package }
    } else if key == "DESC"@ {
        model::PackageView { description: split::join(values, " "@), ..package }
    } else if key == "URL"@ {
        model::PackageView { url: first, ..package }
    } else if key == "PACKAGER"@ {
        model::PackageView { packager: first, ..package }
    } else if key == "SIZE"@ {
        model::PackageView {
            size: match number::unsigned(first, u64::MAX as nat) {
                Some(n) => n as u64,
                None => 0,
            },
            ..package
        }
    } else if key == "INSTALLDATE"@ {
        model::PackageView { install_date: date_value(first), ..package }
    } else if key == "BUILDDATE"@ {
        model::PackageView { build_date: date_value(first), ..package }
    } else if key == "REASON"@ {
        model::PackageView {
            reason: if first == "1"@ {
                InstallReason::Dependency
            } else {
                InstallReason::Explicit
            },
            ..package
        }
    } else if key == "GROUPS"@ {
        model::PackageView { groups: values, ..package }
    } else if key == "DEPENDS"@ {
        model::PackageView { depends: values, ..package }
    } else if key == "OPTDEPENDS"@ {
        model::PackageView { optdepends: values, ..package }
    } else if key == "PROVIDES"@ {
        model::PackageView { provides: values, ..package }
    } else if key == "REPLACES"@ {
        model::PackageView { replaces: values, ..package }
    } else {
        package
    }
}

/// The timestamp that a value denotes.
pub open spec fn date_value(s: Seq<char>) -> Option<i64> {
    match number::integer(s) {
        Some(n) => Some(n as i64),
        None => None,
    }
}

/// `package` with what the sections say of it, one after the other.
pub open spec fn with_sections(
    package: model::PackageView,
    sections: Seq<Section>,
) -> model::PackageView
    decreases sections.len(),
{
    if sections.len() == 0 {
        package
    } else {
        with_section(with_sections(package, sections.drop_last()), sections.last())
    }
}

/// Whether some section names the package.
pub open spec fn has_name(sections: Seq<Section>) -> bool {
    exists|i: int| 0 <= i < sections.len() && (#[trigger] sections[i]).0 == "NAME"@
}

/// Whether some section that should name the package does not.
pub open spec fn has_empty_name(sections: Seq<Section>) -> bool {
    exists|i: int|
        0 <= i < sections.len() && (#[trigger] sections[i]).0 == "NAME"@ && first_value(
            sections[i].1,
        ).len() == 0
}

/// The package that a `desc` text describes.
///
/// There is one where a `%NAME%` section is present and none is empty.
pub open spec fn described(s: Seq<char>, db_dir: Seq<char>) -> Option<model::PackageView> {
    let found = sections_of(s);
    if has_name(found) && !has_empty_name(found) {
        let blank = model::PackageView { db_dir, ..model::PackageView::blank() };
        Some(with_sections(blank, found))
    } else {
        None
    }
}

/// The literals of the keys are all different.
proof fn lemma_keys_differ()
    ensures
        "NAME"@ != "VERSION"@,
        "NAME"@ != "SIZE"@,
        "NAME"@ != "INSTALLDATE"@,
        "NAME"@ != "REASON"@,
        "NAME"@ != "DEPENDS"@,
        "VERSION"@ != "SIZE"@,
        "VERSION"@ != "INSTALLDATE"@,
        "VERSION"@ != "REASON"@,
        "VERSION"@ != "DEPENDS"@,
        "SIZE"@ != "INSTALLDATE"@,
        "SIZE"@ != "REASON"@,
        "SIZE"@ != "DEPENDS"@,
        "INSTALLDATE"@ != "REASON"@,
        "INSTALLDATE"@ != "DEPENDS"@,
        "REASON"@ != "DEPENDS"@,
{
    reveal_strlit("NAME");
    reveal_strlit("VERSION");
    reveal_strlit("SIZE");
    reveal_strlit("INSTALLDATE");
    reveal_strlit("REASON");
    reveal_strlit("DEPENDS");
    assert("NAME"@.len() == 4 && "VERSION"@.len() == 7 && "SIZE"@.len() == 4);
    assert("INSTALLDATE"@.len() == 11 && "REASON"@.len() == 6 && "DEPENDS"@.len() == 7);
    assert("NAME"@[0] == 'N' && "SIZE"@[0] == 'S');
    assert("VERSION"@[0] == 'V' && "DEPENDS"@[0] == 'D');
}

/// A copy of the first value, or an empty text.
fn first_of(values: &Vec<String>) -> (r: String)
    ensures
        r@ == first_value(text::texts(values@)),
{
    if values.len() > 0 {
        values[0].clone()
    } else {
        String::new()
    }
}

/// Takes over what one section says of the package.
fn take_section(package: &mut Package, key: &str, values: Vec<String>)
    ensures
        final(package)@ == with_section(old(package)@, (key@, text::texts(values@))),
{
    let first = first_of(&values);
    if same(key, "NAME") {
        package.name = first;
    } else if same(key, "VERSION") {
        package.version = first;
    } else if same(key, "DESC") {
        package.description = joined(&values, " ");
    } else if same(key, "URL") {
        package.url = first;
    } else if same(key, "PACKAGER") {
        package.packager = first;
    } else if same(key, "SIZE") {
        package.size = match parse_u64(first.as_str()) {
            Some(n) => n,
            None => 0,
        };
    } else if same(key, "INSTALLDATE") {
        package.install_date = parse_i64(first.as_str());
    } else if same(key, "BUILDDATE") {
        package.build_date = parse_i64(first.as_str());
    } else if same(key, "REASON") {
        package.reason = if same(first.as_str(), "1") {
            InstallReason::Dependency
        } else {
            InstallReason::Explicit
        };
    } else if same(key, "GROUPS") {
        package.groups = values;
    } else if same(key, "DEPENDS") {
        package.depends = values;
    } else if same(key, "OPTDEPENDS") {
        package.optdepends = values;
    } else if same(key, "PROVIDES") {
        package.provides = values;
    } else if same(key, "REPLACES") {
        package.replaces = values;
    }
}

/// Parse a `desc` file into a [`Package`].
///
/// Returns `None` when the entry has no `%NAME%`, which is the only field
/// without which nothing downstream can work.
pub fn parse_desc(text: &str, db_dir: &str) -> (r: Option<Package>)
    ensures
        match r {
            Some(package) => described(text@, db_dir@) == Some(package@),
            None => described(text@, db_dir@) is None,
        },
{
    let all = sections(text);
    let ghost found = sections_of(text@);
    let mut package = Package::default();
    package.db_dir = db_dir.to_owned();
    let ghost blank = model::PackageView { db_dir: db_dir@, ..model::PackageView::blank() };
    let mut named = false;
    let mut i: usize = 0;
    proof {
        assert(found.take(0) =~= Seq::empty());
        assert(package@ =~= blank);
    }
    while i < all.len()
        invariant
            i <= all.len(),
            section_views(all@) == found,
            found == sections_of(text@),
            package@ == with_sections(blank, found.take(i as int)),
            named == has_name(found.take(i as int)),
            !has_empty_name(found.take(i as int)),
        decreases all.len() - i,
    {
        let ghost so_far = found.take(i as int);
        let ghost next = found.take(i + 1);
        proof {
            assert(next.drop_last() =~= so_far);
            assert(next.last() == found[i as int]);
            assert(section_views(all@)[i as int] == found[i as int]);
            assert forall|k: int| 0 <= k < i implies #[trigger] next[k] == so_far[k] by {}
        }
        let key = all[i].0.clone();
        let values = text::copy_texts(&all[i].1);
        if same(key.as_str(), "NAME") {
            if values.len() == 0 || values[0].as_str().is_empty() {
                proof {
                    assert(found[i as int].0 == "NAME"@);
                    assert(has_empty_name(found));
                }
                return None;
            }
            named = true;
            assert(next[i as int].0 == "NAME"@);
        }
        take_section(&mut package, key.as_str(), values);
        proof {
            if has_name(next) && !has_name(so_far) {
                let k = choose|k: int| 0 <= k < next.len() && (#[trigger] next[k]).0 == "NAME"@;
                if k < i {
                    assert(so_far[k].0 == "NAME"@);
                }
            }
            if has_name(so_far) {
                let k = choose|k: int|
                    0 <= k < so_far.len() && (#[trigger] so_far[k]).0 == "NAME"@;
                assert(next[k].0 == "NAME"@);
            }
            if has_empty_name(next) {
                let k = choose|k: int|
                    0 <= k < next.len() && (#[trigger] next[k]).0 == "NAME"@ && first_value(
                        next[k].1,
                    ).len() == 0;
                if k < i {
                    assert(so_far[k].0 == "NAME"@);
                }
            }
        }
        i += 1;
    }
    assert(found.take(found.len() as int) =~= found);
    if named {
        Some(package)
    } else {
        None
    }
}

/// Whether a value can stand on a line of its own: it is not empty, holds no
/// line feed, does not end in a carriage return and is no header.
pub open spec fn is_plain(value: Seq<char>) -> bool {
    value.len() > 0 && !value.contains('\n') && value.last() != '\r' && !is_header(value)
}

/// The header that opens the section `key`.
pub open spec fn header_line(key: Seq<char>) -> Seq<char> {
    seq!['%'] + key + seq!['%']
}

/// The lines of a database entry with six fields.
pub open spec fn entry_lines(
    name: Seq<char>,
    version: Seq<char>,
    size: u64,
    installed: i64,
    dependency: Seq<char>,
) -> Seq<Seq<char>> {
    seq![header_line("NAME"@), name, Seq::empty()] + seq![
        header_line("VERSION"@),
        version,
        Seq::empty(),
    ] + seq![header_line("SIZE"@), number::decimal(size as nat), Seq::empty()] + seq![
        header_line("INSTALLDATE"@),
        number::signed_decimal(installed as int),
        Seq::empty(),
    ] + seq![header_line("REASON"@), "1"@, Seq::empty()] + seq![
        header_line("DEPENDS"@),
        dependency,
    ]
}

proof fn lemma_trim_plain_end(s: Seq<char>, c: char)
    requires
        s.len() == 0 || s.last() != c,
    ensures
        text::trim_end_where(s, text::just(c)) == s,
{
}

/// A header line names its key.
pub proof fn lemma_header_key(key: Seq<char>)
    requires
        key.len() > 0,
        key[0] != '%',
        key.last() != '%',
    ensures
        header_key(header_line(key)) == key,
        is_header(header_line(key)),
        !key.contains('\n') ==> !header_line(key).contains('\n'),
{
    let line = header_line(key);
    let p = text::just('%');
    assert(line.drop_first() =~= key + seq!['%']);
    assert(text::trim_start_where(key + seq!['%'], p) == key + seq!['%']);
    assert(text::trim_start_where(line, p) == key + seq!['%']);
    assert((key + seq!['%']).drop_last() =~= key);
    assert(text::trim_end_where(key, p) == key);
    assert(text::trim_end_where(key + seq!['%'], p) == key);
    if !key.contains('\n') && line.contains('\n') {
        let i = choose|i: int| 0 <= i < line.len() && line[i] == '\n';
        assert(key[i - 1] == '\n');
    }
}

/// A section with one value, read after complete sections.
proof fn lemma_read_block(lines: Seq<Seq<char>>, done: Seq<Section>, key: Seq<char>, value: Seq<char>)
    requires
        reading(lines) == (done, None::<Section>),
        key.len() > 0,
        key[0] != '%',
        key.last() != '%',
        is_plain(value),
    ensures
        reading(lines + seq![header_line(key), value]) == (done, Some((key, seq![value]))),
        reading(lines + seq![header_line(key), value, Seq::empty()]) == (
            done.push((key, seq![value])),
            None::<Section>,
        ),
{
    lemma_header_key(key);
    let a = lines.push(header_line(key));
    let b = a.push(value);
    let c = b.push(Seq::empty());
    assert(a.drop_last() =~= lines);
    assert(b.drop_last() =~= a);
    assert(c.drop_last() =~= b);
    lemma_trim_plain_end(header_line(key), '\r');
    lemma_trim_plain_end(value, '\r');
    lemma_trim_plain_end(Seq::empty(), '\r');
    assert(reading(a) == (done, Some((key, Seq::<Seq<char>>::empty()))));
    assert(Seq::<Seq<char>>::empty().push(value) =~= seq![value]);
    assert(reading(b) == (done, Some((key, seq![value]))));
    assert(reading(c) == (done.push((key, seq![value])), None::<Section>));
    assert(lines + seq![header_line(key), value] =~= b);
    assert(lines + seq![header_line(key), value, Seq::empty()] =~= c);
}

proof fn lemma_number_is_plain(s: Seq<char>)
    requires
        s.len() > 0,
        forall|i: int| 0 <= i < s.len() ==> s[i] == '-' || number::is_digit(#[trigger] s[i]),
    ensures
        is_plain(s),
{
    if s.contains('\n') {
        let i = choose|i: int| 0 <= i < s.len() && s[i] == '\n';
        assert(number::is_digit(s[i]) || s[i] == '-');
    }
    assert(number::is_digit(s[0]) || s[0] == '-');
    assert(number::is_digit(s.last()) || s.last() == '-');
}

proof fn lemma_key_shapes()
    ensures
        forall|key: Seq<char>|
            key == "NAME"@ || key == "VERSION"@ || key == "SIZE"@ || key == "INSTALLDATE"@ || key
                == "REASON"@ || key == "DEPENDS"@ ==> key.len() > 0 && key[0] != '%'
                && #[trigger] key.last() != '%' && !key.contains('\n'),
{
    reveal_strlit("NAME");
    reveal_strlit("VERSION");
    reveal_strlit("SIZE");
    reveal_strlit("INSTALLDATE");
    reveal_strlit("REASON");
    reveal_strlit("DEPENDS");
}

/// An entry written from a package parses back into the same package.
pub proof fn entry_round_trip(
    name: Seq<char>,
    version: Seq<char>,
    size: u64,
    installed: i64,
    dependency: Seq<char>,
    db_dir: Seq<char>,
)
    requires
        is_plain(name),
        is_plain(version),
        is_plain(dependency),
    ensures
        described(
            split::unlines(entry_lines(name, version, size, installed, dependency)),
            db_dir,
        ) == Some(
            (model::PackageView {
                name,
                version,
                size,
                install_date: Some(installed),
                reason: InstallReason::Dependency,
                depends: seq![dependency],
                db_dir,
                ..model::PackageView::blank()
            }),
        ),
{
    let size_text = number::decimal(size as nat);
    let date_text = number::signed_decimal(installed as int);
    number::decimal_denotes(size as nat);
    number::number_round_trip(size);
    number::integer_round_trip(installed);
    lemma_number_is_plain(size_text);
    assert(is_plain(date_text)) by {
        if installed < 0 {
            number::decimal_denotes((-installed) as nat);
            assert forall|i: int| 0 <= i < date_text.len() implies date_text[i] == '-'
                || number::is_digit(#[trigger] date_text[i]) by {
                if i > 0 {
                    assert(date_text[i] == number::decimal((-installed) as nat)[i - 1]);
                }
            }
        } else {
            number::decimal_denotes(installed as nat);
        }
        lemma_number_is_plain(date_text);
    }
    assert(is_plain("1"@)) by {
        reveal_strlit("1");
        assert("1"@.len() == 1 && "1"@[0] == '1');
        lemma_number_is_plain("1"@);
    }
    lemma_key_shapes();
    let none = Seq::<Seq<char>>::empty();
    let l1 = none + seq![header_line("NAME"@), name, Seq::empty()];
    let l2 = l1 + seq![header_line("VERSION"@), version, Seq::empty()];
    let l3 = l2 + seq![header_line("SIZE"@), size_text, Seq::empty()];
    let l4 = l3 + seq![header_line("INSTALLDATE"@), date_text, Seq::empty()];
    let l5 = l4 + seq![header_line("REASON"@), "1"@, Seq::empty()];
    let l6 = l5 + seq![header_line("DEPENDS"@), dependency];
    let s0 = Seq::<Section>::empty();
    let s1 = s0.push(("NAME"@, seq![name]));
    let s2 = s1.push(("VERSION"@, seq![version]));
    let s3 = s2.push(("SIZE"@, seq![size_text]));
    let s4 = s3.push(("INSTALLDATE"@, seq![date_text]));
    let s5 = s4.push(("REASON"@, seq!["1"@]));
    let s6 = s5.push(("DEPENDS"@, seq![dependency]));
    assert(reading(none) == (s0, None::<Section>));
    assert("NAME"@.last() != '%');
    lemma_read_block(none, s0, "NAME"@, name);
    assert("VERSION"@.last() != '%');
    lemma_read_block(l1, s1, "VERSION"@, version);
    assert("SIZE"@.last() != '%');
    lemma_read_block(l2, s2, "SIZE"@, size_text);
    assert("INSTALLDATE"@.last() != '%');
    lemma_read_block(l3, s3, "INSTALLDATE"@, date_text);
    assert("REASON"@.last() != '%');
    lemma_read_block(l4, s4, "REASON"@, "1"@);
    assert("DEPENDS"@.last() != '%');
    lemma_read_block(l5, s5, "DEPENDS"@, dependency);
    let all = entry_lines(name, version, size, installed, dependency);
    assert(all =~= l6);
    lemma_header_key("NAME"@);
    lemma_header_key("VERSION"@);
    lemma_header_key("SIZE"@);
    lemma_header_key("INSTALLDATE"@);
    lemma_header_key("REASON"@);
    lemma_header_key("DEPENDS"@);
    assert forall|i: int| 0 <= i < all.len() implies !(#[trigger] all[i]).contains('\n') && (
    all[i].len() == 0 || all[i].last() != '\r') by {}
    split::lines_of_unlines(all);
    assert(sections_of(split::unlines(all)) == s6);
    lemma_keys_differ();
    lemma_other_keys();
    assert("VERSION"@.len() > 0 && "SIZE"@.len() > 0 && "INSTALLDATE"@.len() > 0);
    assert("REASON"@.len() > 0 && "DEPENDS"@.len() > 0);
    let blank = model::PackageView { db_dir, ..model::PackageView::blank() };
    assert(s1.drop_last() =~= s0);
    assert(s2.drop_last() =~= s1);
    assert(s3.drop_last() =~= s2);
    assert(s4.drop_last() =~= s3);
    assert(s5.drop_last() =~= s4);
    assert(s6.drop_last() =~= s5);
    let p1 = with_sections(blank, s1);
    let p2 = with_sections(blank, s2);
    let p3 = with_sections(blank, s3);
    let p4 = with_sections(blank, s4);
    let p5 = with_sections(blank, s5);
    assert(with_sections(blank, s0) == blank);
    assert(p1 == (model::PackageView { name, ..blank }));
    assert(p2 == (model::PackageView { version, ..p1 }));
    assert(p3 == (model::PackageView { size, ..p2 }));
    assert(p4 == (model::PackageView { install_date: Some(installed), ..p3 }));
    assert(p5 == (model::PackageView { reason: InstallReason::Dependency, ..p4 }));
    assert(with_sections(blank, s6) == (model::PackageView { depends: seq![dependency], ..p5 }));
    assert(s6[0].0 == "NAME"@);
    assert(has_name(s6));
    assert(!has_empty_name(s6)) by {
        if has_empty_name(s6) {
            let k = choose|k: int|
                0 <= k < s6.len() && (#[trigger] s6[k]).0 == "NAME"@ && first_value(s6[k].1).len()
                    == 0;
            assert(k == 0);
        }
    }
}

/// The keys that an entry with six fields leaves out differ from those in it.
proof fn lemma_other_keys()
    ensures
        forall|key: Seq<char>|
            key == "VERSION"@ || key == "SIZE"@ || key == "INSTALLDATE"@ || key == "REASON"@
                || key == "DEPENDS"@ ==> #[trigger] key.len() > 0 && key != "DESC"@ && key != "URL"@
                && key != "PACKAGER"@ && key != "BUILDDATE"@ && key != "GROUPS"@,
{
    reveal_strlit("VERSION");
    reveal_strlit("SIZE");
    reveal_strlit("INSTALLDATE");
    reveal_strlit("REASON");
    reveal_strlit("DEPENDS");
    reveal_strlit("DESC");
    reveal_strlit("URL");
    reveal_strlit("PACKAGER");
    reveal_strlit("BUILDDATE");
    reveal_strlit("GROUPS");
    assert("SIZE"@[0] == 'S' && "DESC"@[0] == 'D');
    assert("REASON"@[0] == 'R' && "GROUPS"@[0] == 'G');
    assert("VERSION"@.len() == 7 && "INSTALLDATE"@.len() == 11 && "DEPENDS"@.len() == 7);
    assert("SIZE"@.len() == 4 && "REASON"@.len() == 6 && "DESC"@.len() == 4);
    assert("URL"@.len() == 3 && "PACKAGER"@.len() == 8 && "BUILDDATE"@.len() == 9 && "GROUPS"@.len()
        == 6);
}

/// Whether a listed path is a file: not empty, and not a directory.
pub open spec fn is_file(path: Seq<char>) -> bool {
    path.len() > 0 && path.last() != '/'
}

/// The files listed in the `%FILES%` sections among `sections`.
pub open spec fn files_in(sections: Seq<Section>) -> Seq<Seq<char>>
    decreases sections.len(),
{
    if sections.len() == 0 {
        Seq::empty()
    } else {
        let before = files_in(sections.drop_last());
        let (key, values) = sections.last();
        if key == "FILES"@ {
            before + values.filter(|path: Seq<char>| is_file(path))
        } else {
            before
        }
    }
}

/// Parse the `files` file of a local database entry into root-relative paths.
///
/// The file opens with a `%FILES%` header and lists every path the package
/// owns, without a leading slash. Directory entries end in `/` and are
/// dropped: a directory's access time says nothing about whether the package
/// is used.
pub fn parse_files(text: &str) -> (r: Vec<String>)
    ensures
        text::texts(r@) == files_in(sections_of(text@)),
{
    let all = sections(text);
    let ghost found = sections_of(text@);
    let ghost keep = |path: Seq<char>| is_file(path);
    let mut files: Vec<String> = Vec::new();
    let mut i: usize = 0;
    proof {
        assert(found.take(0) =~= Seq::empty());
        assert(text::texts(files@) =~= Seq::empty());
    }
    while i < all.len()
        invariant
            i <= all.len(),
            section_views(all@) == found,
            keep == (|path: Seq<char>| is_file(path)),
            text::texts(files@) == files_in(found.take(i as int)),
        decreases all.len() - i,
    {
        let ghost before = files_in(found.take(i as int));
        proof {
            assert(found.take(i + 1).drop_last() =~= found.take(i as int));
            assert(found.take(i + 1).last() == found[i as int]);
            assert(section_views(all@)[i as int] == found[i as int]);
        }
        if same(all[i].0.as_str(), "FILES") {
            let values = &all[i].1;
            let ghost paths = text::texts(values@);
            let mut j: usize = 0;
            proof {
                assert(paths.take(0) =~= Seq::empty());
                reveal(Seq::filter);
                assert(paths.take(0).filter(keep) =~= Seq::empty());
                assert(text::texts(files@) =~= before + paths.take(0).filter(keep));
            }
            while j < values.len()
                invariant
                    j <= values.len(),
                    paths == text::texts(values@),
                    keep == (|path: Seq<char>| is_file(path)),
                    text::texts(files@) == before + paths.take(j as int).filter(keep),
                decreases values.len() - j,
            {
                let chars = chars_of(values[j].as_str());
                proof {
                    assert(paths.take(j + 1) =~= paths.take(j as int).push(values@[j as int]@));
                    split::lemma_filter_push(paths.take(j as int), values@[j as int]@, keep);
                }
                if chars.len() > 0 && chars[chars.len() - 1] != '/' {
                    let ghost was = files@;
                    files.push(values[j].clone());
                    assert(text::texts(files@) =~= text::texts(was).push(values@[j as int]@));
                    assert(text::texts(files@) =~= before + paths.take(j + 1).filter(keep));
                }
                j += 1;
            }
            assert(paths.take(paths.len() as int) =~= paths);
        }
        i += 1;
    }
    assert(found.take(found.len() as int) =~= found);
    files
}

/// The test for the characters that open a version constraint.
pub open spec fn constraint_marks() -> spec_fn(char) -> bool {
    |c: char| c == '<' || c == '>' || c == '='
}

/// The name in a dependency specification: what stands before the first colon
/// and before the first constraint, without white space around it.
pub open spec fn name_in(spec_text: Seq<char>) -> Seq<char> {
    let head = split::split_on(spec_text, ':')[0];
    text::trim(split::split_where(head, constraint_marks())[0])
}

/// Strip a version constraint from a dependency string.
///
/// `foo>=1.2`, `foo=1.2`, `foo<3` and `libbar.so=1-64` all name `foo` or
/// `libbar.so`. Description text after a colon, used by `%OPTDEPENDS%`, is
/// stripped too.
pub fn dependency_name(spec: &str) -> (r: &str)
    ensures
        r@ == name_in(spec@),
{
    let head = before_first(spec, ':');
    let v = chars_of(head);
    let mut end: usize = 0;
    while end < v.len() && v[end] != '<' && v[end] != '>' && v[end] != '='
        invariant
            end <= v.len(),
            v@ == head@,
            forall|j: int| 0 <= j < end ==> !constraint_marks()(#[trigger] head@[j]),
        decreases v.len() - end,
    {
        end += 1;
    }
    proof {
        split::lemma_split_first(head@, constraint_marks(), end as int);
        assert(head@.take(end as int) =~= head@.subrange(0, end as int));
    }
    trimmed(head.substring_char(0, end))
}

/// A constraint or a description behind a name does not change the name.
pub proof fn constraints_are_stripped(name: Seq<char>, rest: Seq<char>)
    requires
        forall|i: int| 0 <= i < name.len() ==> #[trigger] name[i] != ':' && !constraint_marks()(name[i]),
        text::trim(name) == name,
        rest.len() == 0 || rest[0] == ':' || constraint_marks()(rest[0]),
    ensures
        name_in(name + rest) == name,
{
    let whole = name + rest;
    let colon = text::just(':');
    if rest.len() == 0 {
        assert(whole =~= name);
        split::lemma_split_first(whole, colon, name.len() as int);
        assert(whole.take(name.len() as int) =~= name);
        split::lemma_split_first(name, constraint_marks(), name.len() as int);
        assert(name.take(name.len() as int) =~= name);
    } else if rest[0] == ':' {
        split::lemma_split_first(whole, colon, name.len() as int);
        assert(whole.take(name.len() as int) =~= name);
        split::lemma_split_first(name, constraint_marks(), name.len() as int);
        assert(name.take(name.len() as int) =~= name);
    } else {
        let end = lemma_first_match(whole, colon, 0);
        split::lemma_split_first(whole, colon, end);
        let head = whole.take(end);
        assert(end > name.len()) by {
            if end <= name.len() {
                assert(whole[end] == ':');
            }
        }
        assert forall|j: int| 0 <= j < name.len() implies !constraint_marks()(#[trigger] head[j]) by {
            assert(head[j] == name[j]);
        }
        assert(head[name.len() as int] == rest[0]);
        split::lemma_split_first(head, constraint_marks(), name.len() as int);
        assert(head.take(name.len() as int) =~= name);
    }
}

/// Where the first character satisfying `p` stands, or the end of the text.
proof fn lemma_first_match(s: Seq<char>, p: spec_fn(char) -> bool, from: int) -> (i: int)
    requires
        0 <= from <= s.len(),
        forall|j: int| 0 <= j < from ==> !p(#[trigger] s[j]),
    ensures
        from <= i <= s.len(),
        forall|j: int| 0 <= j < i ==> !p(#[trigger] s[j]),
        i < s.len() ==> p(s[i]),
    decreases s.len() - from,
{
    if from == s.len() || p(s[from]) {
        from
    } else {
        lemma_first_match(s, p, from + 1)
    }
}

/// The package name in the name of a database directory: what is left without
/// the last two fields that hyphens separate.
pub open spec fn name_of_dir(dir_name: Seq<char>) -> Option<Seq<char>> {
    match split::rsplit_once_at(dir_name, '-') {
        Some((rest, _)) => match split::rsplit_once_at(rest, '-') {
            Some((name, _)) => if name.len() > 0 {
                Some(name)
            } else {
                None
            },
            None => None,
        },
        None => None,
    }
}

/// Split a local database directory name into its package name.
///
/// Entries are named `<pkgname>-<pkgver>-<pkgrel>`. Neither `pkgver` nor
/// `pkgrel` may contain a hyphen, so removing the last two hyphen-separated
/// fields recovers the name. Used only as a fallback: `%NAME%` inside `desc`
/// is authoritative.
pub fn name_from_dir(dir_name: &str) -> (r: Option<&str>)
    ensures
        match r {
            Some(name) => name_of_dir(dir_name@) == Some(name@),
            None => name_of_dir(dir_name@) is None,
        },
{
    match rsplit_once(dir_name, '-') {
        Some((rest, _pkgrel)) => match rsplit_once(rest, '-') {
            Some((name, _pkgver)) => if name.is_empty() {
                None
            } else {
                Some(name)
            },
            None => None,
        },
        None => None,
    }
}

/// A directory name gives back the package name that it was made of.
pub proof fn directory_name_round_trip(name: Seq<char>, version: Seq<char>, release: Seq<char>)
    requires
        name.len() > 0,
        !version.contains('-'),
        !release.contains('-'),
    ensures
        name_of_dir(name + seq!['-'] + version + seq!['-'] + release) == Some(name),
{
    let front = name + seq!['-'] + version;
    split::rsplit_of_joined(front, '-', release);
    split::rsplit_of_joined(name, '-', version);
}

} // verus!
