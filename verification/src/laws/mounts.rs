//! How far access times can be trusted.
use vstd::prelude::*;

use crate::laws::words;
use crate::model::AtimeSupport;
use crate::split;
use crate::text;
use crate::usage;

verus! {

/// Whether a line of the mount table has all its fields and mounts something
/// that a path lies on: the path itself, the root, or a directory above it.
pub open spec fn lies_on(line: Seq<char>, path: Seq<char>) -> bool {
    let fields = split::words(line);
    &&& fields.len() >= 4
    &&& {
        ||| fields[1] == path
        ||| fields[1] == "/"@ && path.len() > 0 && path[0] == '/'
        ||| fields[1] != "/"@ && exists|rest: Seq<char>| path == #[trigger] (fields[1] + "/"@ + rest)
    }
}

/// The length of the mount point in a line.
pub open spec fn depth(line: Seq<char>) -> nat {
    vstd::utf8::encode_utf8(split::words(line)[1]).len()
}

/// Whether no mount is closer to a path than the one in a line.
pub open spec fn is_closest(lines: Seq<Seq<char>>, path: Seq<char>, i: int) -> bool {
    &&& 0 <= i < lines.len()
    &&& lies_on(lines[i], path)
    &&& forall|j: int|
        0 <= j < lines.len() && lies_on(#[trigger] lines[j], path) ==> depth(lines[j]) <= depth(
            lines[i],
        )
}

/// Whether a line has an option among those that commas separate.
pub open spec fn sets_option(line: Seq<char>, option: Seq<char>) -> bool {
    split::split_on(split::words(line)[3], ',').contains(option)
}

proof fn lemma_lies_on(line: Seq<char>, path: Seq<char>)
    ensures
        lies_on(line, path) == usage::is_covering(line, path),
{
    reveal_strlit("/");
    let fields = split::words(line);
    if fields.len() >= 4 {
        let mount = fields[1];
        if mount != "/"@ {
            if text::starts(path, mount) && path.len() > mount.len() && path[mount.len() as int]
                == '/' {
                let rest = path.skip(mount.len() as int + 1);
                assert(path =~= mount + "/"@ + rest);
            }
            if exists|rest: Seq<char>| path == #[trigger] (mount + "/"@ + rest) {
                let rest = choose|rest: Seq<char>| path == #[trigger] (mount + "/"@ + rest);
                assert(path.take(mount.len() as int) =~= mount);
                assert(path[mount.len() as int] == '/');
            }
        } else {
            assert(mount[0] == '/');
        }
    }
}

proof fn lemma_closest(lines: Seq<Seq<char>>, path: Seq<char>, i: int)
    ensures
        is_closest(lines, path, i) == usage::matters(lines, path, i),
{
    assert forall|j: int| 0 <= j < lines.len() implies lies_on(#[trigger] lines[j], path)
        == usage::is_covering(lines[j], path) by {
        lemma_lies_on(lines[j], path);
    }
}

/// Where a mount closest to the path is `noatime`, access times are off, in
/// whatever order the mounts are listed.
pub proof fn noatime_turns_access_times_off(lines: Seq<Seq<char>>, path: Seq<char>, i: int)
    requires
        is_closest(lines, path, i),
        sets_option(lines[i], "noatime"@),
    ensures
        usage::mount_support(lines, path) == AtimeSupport::Disabled,
{
    lemma_closest(lines, path, i);
    assert(usage::matters(lines, path, i));
}

/// Access times are off only where a mount closest to the path is `noatime`.
pub proof fn nothing_else_turns_access_times_off(lines: Seq<Seq<char>>, path: Seq<char>)
    requires
        usage::mount_support(lines, path) == AtimeSupport::Disabled,
    ensures
        exists|i: int| #[trigger] is_closest(lines, path, i) && sets_option(lines[i], "noatime"@),
{
    if usage::is_frozen(lines, path) {
        let i = choose|i: int| #[trigger]
            usage::matters(lines, path, i) && usage::line_support(lines[i])
                == AtimeSupport::Disabled;
        lemma_closest(lines, path, i);
        assert(is_closest(lines, path, i));
    } else {
        let i = choose|i: int| usage::comes_first(lines, path, i);
        lemma_closest(lines, path, i);
        assert(usage::matters(lines, path, i));
        assert(is_closest(lines, path, i));
    }
}

/// Elsewhere the first of the closest mounts decides: access times are exact
/// where it is `strictatime`, and kept up daily where it is not.
pub proof fn the_closest_mount_decides(lines: Seq<Seq<char>>, path: Seq<char>, i: int)
    requires
        is_closest(lines, path, i),
        forall|j: int| 0 <= j < i ==> !#[trigger] is_closest(lines, path, j),
        forall|j: int| #[trigger] is_closest(lines, path, j) ==> !sets_option(lines[j], "noatime"@),
    ensures
        usage::mount_support(lines, path) == (if sets_option(lines[i], "strictatime"@) {
            AtimeSupport::Strict
        } else {
            AtimeSupport::Relatime
        }),
{
    assert forall|j: int| #[trigger] usage::matters(lines, path, j) == is_closest(
        lines,
        path,
        j,
    ) by {
        lemma_closest(lines, path, j);
    }
    assert forall|j: int| #[trigger] is_closest(lines, path, j) implies usage::matters(
        lines,
        path,
        j,
    ) by {
        lemma_closest(lines, path, j);
    }
    assert(usage::comes_first(lines, path, i));
    let first = choose|k: int| usage::comes_first(lines, path, k);
    assert(usage::comes_first(lines, path, first));
    if first < i {
        assert(usage::matters(lines, path, first));
    }
    if i < first {
        assert(usage::matters(lines, path, i));
    }
    assert(first == i);
    assert(!usage::is_frozen(lines, path)) by {
        if usage::is_frozen(lines, path) {
            let j = choose|j: int| #[trigger]
                usage::matters(lines, path, j) && usage::line_support(lines[j])
                    == AtimeSupport::Disabled;
            assert(is_closest(lines, path, j));
            assert(!sets_option(lines[j], "noatime"@));
        }
    }
}

/// Where the path lies on no mount that is listed, nothing is known.
pub proof fn without_a_mount_nothing_is_known(lines: Seq<Seq<char>>, path: Seq<char>)
    requires
        forall|j: int| 0 <= j < lines.len() ==> !lies_on(#[trigger] lines[j], path),
    ensures
        usage::mount_support(lines, path) == AtimeSupport::Unknown,
{
    assert forall|j: int| !#[trigger] usage::matters(lines, path, j) by {
        if 0 <= j < lines.len() {
            lemma_lies_on(lines[j], path);
        }
    }
    if exists|i: int| usage::comes_first(lines, path, i) {
        let i = choose|i: int| usage::comes_first(lines, path, i);
        assert(usage::matters(lines, path, i));
    }
}

/// A line of the mount table holds the mount point in its second field and the
/// options in its fourth.
pub proof fn mounts_are_read_off_their_line(fields: Seq<Seq<char>>, options: Seq<Seq<char>>, option: Seq<char>)
    requires
        fields.len() >= 4,
        forall|i: int| 0 <= i < fields.len() ==> (#[trigger] fields[i]).len() > 0,
        forall|i: int, k: int|
            0 <= i < fields.len() && 0 <= k < fields[i].len() ==> '!' <= #[trigger] fields[i][k]
                <= '~',
        options.len() > 0,
        forall|i: int| 0 <= i < options.len() ==> !(#[trigger] options[i]).contains(','),
        fields[3] == split::join(options, seq![',']),
    ensures
        sets_option(split::join(fields, " "@), option) <==> options.contains(option),
        lies_on(split::join(fields, " "@), fields[1]),
        depth(split::join(fields, " "@)) == vstd::utf8::encode_utf8(fields[1]).len(),
{
    words::words_are_found_again(fields);
    words::pieces_are_found_again(options, ',');
}

} // verus!
