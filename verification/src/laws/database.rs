//! What the package database says.
use vstd::prelude::*;

use crate::localdb;
use crate::localdb::Section;
use crate::model;
use crate::model::{InstallReason, PackageView};
use crate::number;
use crate::sets;
use crate::split;
use crate::text;

verus! {

/// The first value of a section, or nothing.
pub open spec fn top(values: Seq<Seq<char>>) -> Seq<char> {
    if values.len() > 0 {
        values[0]
    } else {
        Seq::empty()
    }
}

/// The time that a text gives in Unix seconds, if it gives one.
pub open spec fn moment(s: Seq<char>) -> Option<i64> {
    match number::integer(s) {
        Some(n) => Some(n as i64),
        None => None,
    }
}

/// The values of the last section with a key.
pub open spec fn last_of(sections: Seq<Section>, key: Seq<char>) -> Option<Seq<Seq<char>>>
    decreases sections.len(),
{
    if sections.len() == 0 {
        None
    } else if sections.last().0 == key {
        Some(sections.last().1)
    } else {
        last_of(sections.drop_last(), key)
    }
}

/// Whether each field of a package comes from the section that is named after
/// it, and is left as it was where there is none.
pub open spec fn follows_sections(sections: Seq<Section>, p: PackageView, q: PackageView) -> bool {
    &&& q.name == (match last_of(sections, "NAME"@) {
        Some(values) => top(values),
        None => p.name,
    })
    &&& q.version == (match last_of(sections, "VERSION"@) {
        Some(values) => top(values),
        None => p.version,
    })
    &&& q.url == (match last_of(sections, "URL"@) {
        Some(values) => top(values),
        None => p.url,
    })
    &&& q.packager == (match last_of(sections, "PACKAGER"@) {
        Some(values) => top(values),
        None => p.packager,
    })
    &&& q.description == (match last_of(sections, "DESC"@) {
        Some(values) => split::join(values, " "@),
        None => p.description,
    })
    &&& q.size == (match last_of(sections, "SIZE"@) {
        Some(values) => match number::unsigned(top(values), 0xffff_ffff_ffff_ffff) {
            Some(n) => n as u64,
            None => 0,
        },
        None => p.size,
    })
    &&& q.install_date == (match last_of(sections, "INSTALLDATE"@) {
        Some(values) => moment(top(values)),
        None => p.install_date,
    })
    &&& q.build_date == (match last_of(sections, "BUILDDATE"@) {
        Some(values) => moment(top(values)),
        None => p.build_date,
    })
    &&& q.reason == (match last_of(sections, "REASON"@) {
        Some(values) => if top(values) == "1"@ {
            InstallReason::Dependency
        } else {
            InstallReason::Explicit
        },
        None => p.reason,
    })
    &&& q.groups == (match last_of(sections, "GROUPS"@) {
        Some(values) => values,
        None => p.groups,
    })
    &&& q.depends == (match last_of(sections, "DEPENDS"@) {
        Some(values) => values,
        None => p.depends,
    })
    &&& q.optdepends == (match last_of(sections, "OPTDEPENDS"@) {
        Some(values) => values,
        None => p.optdepends,
    })
    &&& q.provides == (match last_of(sections, "PROVIDES"@) {
        Some(values) => values,
        None => p.provides,
    })
    &&& q.replaces == (match last_of(sections, "REPLACES"@) {
        Some(values) => values,
        None => p.replaces,
    })
    &&& q.db_dir == p.db_dir
}

/// Each field of a package is what the section of its name says: the name, the
/// version, the size and the dates, the reason of the installation, and what
/// the package depends on, provides and replaces. Sections that are not known
/// change nothing.
pub proof fn fields_come_from_their_sections(sections: Seq<Section>, p: PackageView)
    ensures
        follows_sections(sections, p, localdb::with_sections(p, sections)),
    decreases sections.len(),
{
    if sections.len() > 0 {
        fields_come_from_their_sections(sections.drop_last(), p);
        reveal_strlit("NAME");
        reveal_strlit("VERSION");
        reveal_strlit("DESC");
        reveal_strlit("URL");
        reveal_strlit("PACKAGER");
        reveal_strlit("SIZE");
        reveal_strlit("INSTALLDATE");
        reveal_strlit("BUILDDATE");
        reveal_strlit("REASON");
        reveal_strlit("GROUPS");
        reveal_strlit("DEPENDS");
        reveal_strlit("OPTDEPENDS");
        reveal_strlit("PROVIDES");
        reveal_strlit("REPLACES");
        assert("NAME"@.len() == 4);
        assert("VERSION"@.len() == 7);
        assert("DESC"@.len() == 4);
        assert("URL"@.len() == 3);
        assert("PACKAGER"@.len() == 8);
        assert("SIZE"@.len() == 4);
        assert("INSTALLDATE"@.len() == 11);
        assert("BUILDDATE"@.len() == 9);
        assert("REASON"@.len() == 6);
        assert("GROUPS"@.len() == 6);
        assert("DEPENDS"@.len() == 7);
        assert("OPTDEPENDS"@.len() == 10);
        assert("PROVIDES"@.len() == 8);
        assert("REPLACES"@.len() == 8);
        assert("NAME"@[0] != "SIZE"@[0]);
        assert("DESC"@[0] != "SIZE"@[0] && "DESC"@[0] != "NAME"@[0]);
        assert("REASON"@[0] != "GROUPS"@[0]);
        assert("VERSION"@[0] != "DEPENDS"@[0]);
        assert("PACKAGER"@[1] != "PROVIDES"@[1]);
        assert("PACKAGER"@[0] != "REPLACES"@[0]);
        assert("PROVIDES"@[0] != "REPLACES"@[0]);
        let values = sections.last().1;
        let first = top(values);
        assert(localdb::first_value(values) == first);
        assert(localdb::date_value(first) == moment(first));
        assert(last_of(sections, "INSTALLDATE"@) == (if sections.last().0 == "INSTALLDATE"@ {
            Some(values)
        } else {
            last_of(sections.drop_last(), "INSTALLDATE"@)
        }));
        assert(last_of(sections, "BUILDDATE"@) == (if sections.last().0 == "BUILDDATE"@ {
            Some(values)
        } else {
            last_of(sections.drop_last(), "BUILDDATE"@)
        }));
    }
}

/// A database entry is a package exactly where it names itself: it has a
/// section `NAME`, and none of them is empty. Nothing else is asked for.
pub proof fn entries_need_a_name(s: Seq<char>, db_dir: Seq<char>)
    ensures
        ({
            let sections = localdb::sections_of(s);
            let blank = PackageView {
                name: Seq::empty(),
                version: Seq::empty(),
                size: 0,
                install_date: None,
                build_date: None,
                reason: InstallReason::Explicit,
                description: Seq::empty(),
                url: Seq::empty(),
                packager: Seq::empty(),
                groups: Seq::empty(),
                depends: Seq::empty(),
                optdepends: Seq::empty(),
                provides: Seq::empty(),
                replaces: Seq::empty(),
                db_dir,
            };
            &&& localdb::described(s, db_dir) is Some <==> {
                &&& exists|i: int| 0 <= i < sections.len() && (#[trigger] sections[i]).0 == "NAME"@
                &&& forall|i: int|
                    0 <= i < sections.len() && (#[trigger] sections[i]).0 == "NAME"@ ==> top(
                        sections[i].1,
                    ).len() > 0
            }
            &&& localdb::described(s, db_dir) matches Some(package) ==> follows_sections(
                sections,
                blank,
                package,
            )
        }),
{
    let sections = localdb::sections_of(s);
    let blank = PackageView { db_dir, ..PackageView::blank() };
    fields_come_from_their_sections(sections, blank);
}

/// The lines of sections, each with its header in front and a blank line behind.
pub open spec fn written(sections: Seq<Section>) -> Seq<Seq<char>>
    decreases sections.len(),
{
    if sections.len() == 0 {
        Seq::empty()
    } else {
        let (key, values) = sections.last();
        written(sections.drop_last()) + seq![seq!['%'] + key + seq!['%']] + values + seq![
            Seq::empty(),
        ]
    }
}

/// Whether a section can be written down: its key is no blank and no percent
/// sign, and its values are lines that are no header.
pub open spec fn is_writable(section: Section) -> bool {
    let (key, values) = section;
    &&& key.len() > 0
    &&& key[0] != '%'
    &&& key.last() != '%'
    &&& !key.contains('\n')
    &&& forall|i: int|
        0 <= i < values.len() ==> {
            &&& (#[trigger] values[i]).len() > 0
            &&& !values[i].contains('\n')
            &&& values[i].last() != '\r'
            &&& !(values[i].len() >= 2 && values[i][0] == '%' && values[i].last() == '%')
        }
}

proof fn lemma_values(
    lines: Seq<Seq<char>>,
    done: Seq<Section>,
    key: Seq<char>,
    values: Seq<Seq<char>>,
    k: nat,
)
    requires
        localdb::reading(lines) == (done, None::<Section>),
        is_writable((key, values)),
        k <= values.len(),
    ensures
        localdb::reading(lines + seq![localdb::header_line(key)] + values.take(k as int)) == (
            done,
            Some((key, values.take(k as int))),
        ),
    decreases k,
{
    let header = localdb::header_line(key);
    localdb::lemma_header_key(key);
    let head = lines + seq![header];
    if k == 0 {
        assert(head.drop_last() =~= lines);
        assert(text::trim_end_where(header, text::just('\r')) == header);
        assert(head + values.take(0) =~= head);
        assert(values.take(0) =~= Seq::<Seq<char>>::empty());
    } else {
        let m = (k - 1) as nat;
        lemma_values(lines, done, key, values, m);
        let before = head + values.take(m as int);
        let all = head + values.take(k as int);
        let value = values[k - 1];
        assert((key, values).1[k - 1].len() > 0);
        assert(value.len() > 0 && value.last() != '\r');
        assert(all.drop_last() =~= before);
        assert(all.last() == value);
        assert(text::trim_end_where(value, text::just('\r')) == value);
        assert(!localdb::is_header(value));
        assert(values.take(m as int).push(value) =~= values.take(k as int));
    }
}

proof fn lemma_written(sections: Seq<Section>)
    requires
        forall|i: int| 0 <= i < sections.len() ==> is_writable(#[trigger] sections[i]),
    ensures
        localdb::reading(written(sections)) == (sections, None::<Section>),
        forall|i: int|
            0 <= i < written(sections).len() ==> !(#[trigger] written(sections)[i]).contains('\n')
                && (written(sections)[i].len() == 0 || written(sections)[i].last() != '\r'),
    decreases sections.len(),
{
    if sections.len() > 0 {
        let front = sections.drop_last();
        assert forall|i: int| 0 <= i < front.len() implies is_writable(#[trigger] front[i]) by {
            assert(front[i] == sections[i]);
        }
        lemma_written(front);
        let (key, values) = sections.last();
        assert(is_writable(sections[sections.len() - 1]));
        let header = localdb::header_line(key);
        localdb::lemma_header_key(key);
        let before = written(front);
        lemma_values(before, front, key, values, values.len());
        assert(values.take(values.len() as int) =~= values);
        let open = before + seq![header] + values;
        let all = written(sections);
        assert(all =~= open.push(Seq::empty()));
        assert(all.drop_last() =~= open);
        assert(text::trim_end_where(Seq::<char>::empty(), text::just('\r')) == Seq::<char>::empty());
        assert(front.push((key, values)) =~= sections);
        assert forall|i: int| 0 <= i < all.len() implies !(#[trigger] all[i]).contains('\n') && (
        all[i].len() == 0 || all[i].last() != '\r') by {
            if i < before.len() {
                assert(all[i] == before[i]);
            } else if i == before.len() {
                assert(all[i] == header);
            } else if i < open.len() {
                assert(all[i] == values[i - before.len() - 1]);
            }
        }
    }
}

/// Sections that are written down are read back as they were, whatever their
/// keys are.
pub proof fn sections_round_trip(sections: Seq<Section>)
    requires
        forall|i: int| 0 <= i < sections.len() ==> is_writable(#[trigger] sections[i]),
    ensures
        localdb::sections_of(split::unlines(written(sections))) == sections,
{
    lemma_written(sections);
    split::lines_of_unlines(written(sections));
}

/// The files of a package are the values of its sections `FILES`, without the
/// directories, which end in a slash.
pub proof fn files_are_listed_without_directories(sections: Seq<Section>, path: Seq<char>)
    ensures
        localdb::files_in(sections).contains(path) <==> {
            &&& path.len() > 0
            &&& path.last() != '/'
            &&& exists|i: int|
                0 <= i < sections.len() && (#[trigger] sections[i]).0 == "FILES"@
                    && sections[i].1.contains(path)
        },
    decreases sections.len(),
{
    if sections.len() > 0 {
        let front = sections.drop_last();
        files_are_listed_without_directories(front, path);
        let (key, values) = sections.last();
        assert(sections[sections.len() - 1] == sections.last());
        let keep = |p: Seq<char>| localdb::is_file(p);
        split::lemma_filter_contains(values, keep, path);
        sets::lemma_append_contains(localdb::files_in(front), values.filter(keep));
        if exists|i: int|
            0 <= i < sections.len() && (#[trigger] sections[i]).0 == "FILES"@
                && sections[i].1.contains(path) {
            let i = choose|i: int|
                0 <= i < sections.len() && (#[trigger] sections[i]).0 == "FILES"@
                    && sections[i].1.contains(path);
            if i < front.len() {
                assert(front[i] == sections[i]);
            }
        }
        if exists|i: int|
            0 <= i < front.len() && (#[trigger] front[i]).0 == "FILES"@ && front[i].1.contains(path) {
            let i = choose|i: int|
                0 <= i < front.len() && (#[trigger] front[i]).0 == "FILES"@ && front[i].1.contains(
                    path,
                );
            assert(sections[i] == front[i]);
        }
    } else {
        assert(localdb::files_in(sections) =~= Seq::empty());
    }
}

/// Files stand in the order in which the database lists them.
pub proof fn files_keep_their_order(sections: Seq<Section>, values: Seq<Seq<char>>)
    requires
        forall|i: int|
            0 <= i < values.len() ==> (#[trigger] values[i]).len() > 0 && values[i].last() != '/',
    ensures
        localdb::files_in(sections.push(("FILES"@, values))) == localdb::files_in(sections) + values,
{
    let all = sections.push(("FILES"@, values));
    assert(all.drop_last() =~= sections);
    lemma_all_files(values);
}

proof fn lemma_all_files(values: Seq<Seq<char>>)
    requires
        forall|i: int|
            0 <= i < values.len() ==> (#[trigger] values[i]).len() > 0 && values[i].last() != '/',
    ensures
        values.filter(|p: Seq<char>| localdb::is_file(p)) == values,
    decreases values.len(),
{
    reveal(Seq::filter);
    if values.len() > 0 {
        let front = values.drop_last();
        assert forall|i: int| 0 <= i < front.len() implies (#[trigger] front[i]).len() > 0
            && front[i].last() != '/' by {
            assert(front[i] == values[i]);
        }
        lemma_all_files(front);
        assert(values[values.len() - 1] == values.last());
        assert(front.push(values.last()) =~= values);
    }
}

} // verus!
