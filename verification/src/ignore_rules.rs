//! The ignore rules of a Git folder.
//!
//! `ignore` takes paths as `std::path::Path`. `bstr` makes one of a path's bytes, and on
//! Unix keeps each byte as it is.

use std::sync::Arc;

use bstr::ByteSlice;
use ignore::gitignore::{Gitignore, GitignoreBuilder};
use vstd::prelude::*;

use crate::components::{components, is_absolute, DOT, SLASH};
use crate::error::{IoError, IoErrorKind, IoErrorView};
use crate::fs_path::{law_parent_drops_last, parent_of, FsPath};
use crate::text::{chars_text, text_chars, trimmed};
use crate::views::seq_view;

verus! {

/// `ignore::gitignore::GitignoreBuilder`: the patterns of a matcher in the making.
#[verifier::external_type_specification]
#[verifier::external_body]
pub struct ExGitignoreBuilder(ignore::gitignore::GitignoreBuilder);

/// `ignore::gitignore::Gitignore`: a matcher for a list of patterns.
#[verifier::external_type_specification]
#[verifier::external_body]
pub struct ExGitignore(ignore::gitignore::Gitignore);

/// The patterns that a builder holds, in order, each as the line that gave it without
/// its trailing white space; a line that ends in a backslash and a space keeps all.
pub uninterp spec fn builder_patterns(builder: GitignoreBuilder) -> Seq<Seq<char>>;

/// The directory that a builder's patterns are relative to.
pub uninterp spec fn builder_root(builder: GitignoreBuilder) -> Seq<u8>;

/// Whether a builder has the options that it is made with.
pub uninterp spec fn has_default_options(builder: GitignoreBuilder) -> bool;

/// The patterns that a matcher holds, in order.
pub uninterp spec fn matcher_patterns(matcher: Gitignore) -> Seq<Seq<char>>;

/// The directory that a matcher's patterns are relative to.
pub uninterp spec fn matcher_root(matcher: Gitignore) -> Seq<u8>;

/// The patterns that a line of an ignore file gives: one, or none where it is
/// blank, a comment, or no valid pattern.
pub uninterp spec fn line_patterns(line: Seq<char>) -> Seq<Seq<char>>;

/// Why no matcher can be made of the patterns, where none can.
pub uninterp spec fn build_error(patterns: Seq<Seq<char>>) -> Option<Seq<char>>;

/// What the last of the patterns that match the path says about it: that it is ignored,
/// or that it is not; nothing where none matches. The path is relative to the root, and
/// directories above it are left out of account.
pub uninterp spec fn verdict(patterns: Seq<Seq<char>>, path: Seq<u8>, is_dir: bool) -> Option<bool>;

/// `s` without `./` at its start.
pub open spec fn without_dot_slash(s: Seq<u8>) -> Seq<u8> {
    if seq![DOT, SLASH].is_prefix_of(s) {
        s.skip(2)
    } else {
        s
    }
}

/// `GitignoreBuilder::new`: no patterns yet, relative to `root`, with the default
/// options.
#[verifier::external_body]
fn new_builder(root: &FsPath) -> (builder: GitignoreBuilder)
    ensures
        builder_patterns(builder).len() == 0,
        builder_root(builder) == without_dot_slash(root@),
        has_default_options(builder),
{
    GitignoreBuilder::new(root.bytes.to_path_lossy())
}

/// `GitignoreBuilder::add_line`: the patterns that the line gives are put behind
/// those that are there; a line of white space and a comment give none. A line that
/// is no valid pattern is left out, and the error that says so is dropped. The name
/// of the file changes nothing about the patterns.
#[verifier::external_body]
fn add_line(builder: &mut GitignoreBuilder, from: &FsPath, line: &str)
    requires
        has_default_options(*old(builder)),
    ensures
        builder_patterns(*final(builder)) == builder_patterns(*old(builder)) + line_patterns(line@),
        trimmed(line@).len() == 0 || line@[0] == '#' ==> builder_patterns(*final(builder))
            == builder_patterns(*old(builder)),
        builder_root(*final(builder)) == builder_root(*old(builder)),
        has_default_options(*final(builder)),
{
    let _ = builder.add_line(Some(from.bytes.to_path_lossy().into_owned()), line);
}

/// `GitignoreBuilder::build`: a matcher with the builder's patterns, relative to
/// the builder's root unless there are none; or the text of the error. Without
/// patterns there is no error.
#[verifier::external_body]
fn build(builder: &GitignoreBuilder) -> (matcher: Result<Gitignore, String>)
    requires
        has_default_options(*builder),
    ensures
        matcher is Ok <==> build_error(builder_patterns(*builder)) is None,
        builder_patterns(*builder).len() == 0 ==> matcher is Ok,
        matcher matches Ok(m) ==> matcher_patterns(m) == builder_patterns(*builder),
        matcher matches Ok(m) ==> matcher_patterns(m).len() > 0 ==> matcher_root(m) == builder_root(
            *builder,
        ),
        matcher matches Err(e) ==> build_error(builder_patterns(*builder)) == Some(e@),
{
    builder.build().map_err(|error| error.to_string())
}

/// The path that a matcher decides about: one without `./` at its start, and, where
/// it is no bare file name, without the matcher's root and one slash behind it.
pub open spec fn matched_part(root: Seq<u8>, path: Seq<u8>) -> Seq<u8> {
    let bare = without_dot_slash(path);
    if bare.contains(SLASH) && root.is_prefix_of(bare) {
        let rest = bare.skip(root.len() as int);
        if rest.len() > 0 && rest[0] == SLASH {
            rest.skip(1)
        } else {
            rest
        }
    } else {
        bare
    }
}

/// Whether the path is ignored: what is said about it counts, or else what is said about
/// the nearest directory above it about which anything is said.
pub open spec fn nearest_verdict(patterns: Seq<Seq<char>>, path: Seq<u8>, is_dir: bool) -> bool
    decreases components(path).len(),
{
    match verdict(patterns, path, is_dir) {
        Some(ignored) => ignored,
        None => match parent_of(path) {
            Some(above) => {
                proof {
                    law_parent_drops_last(path);
                }
                nearest_verdict(patterns, above, true)
            },
            None => false,
        },
    }
}

/// Whether the nearest directory above the path about which anything is said is ignored.
pub open spec fn is_ignored_above(patterns: Seq<Seq<char>>, path: Seq<u8>) -> bool {
    match parent_of(path) {
        Some(above) => nearest_verdict(patterns, above, true),
        None => false,
    }
}

/// Whether patterns relative to `root` ignore the path.
pub open spec fn patterns_ignore(
    root: Seq<u8>,
    patterns: Seq<Seq<char>>,
    path: Seq<u8>,
    is_dir: bool,
) -> bool {
    nearest_verdict(patterns, matched_part(root, path), is_dir)
}

/// `Gitignore::matched_path_or_any_parents`, asked whether the match ignores the path:
/// the path is tried first and then the directories above it, from the nearest on, until
/// a pattern matches. Without patterns nothing is ignored. It panics on a path that does
/// not lie under the root: on one that is still absolute once the root is taken off.
#[verifier::external_body]
pub(crate) fn is_ignored(matcher: &Gitignore, path: &FsPath, is_dir: bool) -> (ignored: bool)
    requires
        matcher_patterns(*matcher).len() > 0 ==> is_absolute(
            matcher_root(*matcher),
        ) && !is_absolute(matched_part(matcher_root(*matcher), path@)),
    ensures
        ignored == (matcher_patterns(*matcher).len() > 0 && (match verdict(
            matcher_patterns(*matcher),
            matched_part(matcher_root(*matcher), path@),
            is_dir,
        ) {
            Some(decided) => decided,
            None => is_ignored_above(
                matcher_patterns(*matcher),
                matched_part(matcher_root(*matcher), path@),
            ),
        })),
{
    matcher.matched_path_or_any_parents(path.bytes.to_path_lossy(), is_dir).is_ignore()
}

/// `Arc::clone`: another pointer to the same matcher.
#[verifier::external_body]
pub(crate) fn share(matcher: &Arc<Gitignore>) -> (copy: Arc<Gitignore>)
    ensures
        copy == *matcher,
{
    Arc::clone(matcher)
}

/// An ignore file: where it stands, and the lines read from it.
#[derive(Debug)]
pub struct IgnoreFile {
    pub path: FsPath,
    pub lines: Vec<String>,
}

/// An ignore file, by its lines: they alone decide about its patterns.
impl View for IgnoreFile {
    type V = Seq<Seq<char>>;

    open spec fn view(&self) -> Seq<Seq<char>> {
        seq_view(self.lines@)
    }
}

/// The byte order mark, where it stands at the start of a file.
pub const BYTE_ORDER_MARK: char = '\u{feff}';

/// `s` without byte order marks at its start.
pub open spec fn without_marks(s: Seq<char>) -> Seq<char>
    decreases s.len(),
{
    if s.len() > 0 && s[0] == BYTE_ORDER_MARK {
        without_marks(s.skip(1))
    } else {
        s
    }
}

/// The patterns that the lines of one file give, in order. Byte order marks at
/// the start of the first line do not count.
pub open spec fn file_patterns(lines: Seq<Seq<char>>) -> Seq<Seq<char>>
    decreases lines.len(),
{
    if lines.len() == 0 {
        Seq::empty()
    } else if lines.len() == 1 {
        line_patterns(without_marks(lines[0]))
    } else {
        file_patterns(lines.drop_last()) + line_patterns(lines.last())
    }
}

/// The patterns that files give, one file behind the other.
pub open spec fn all_patterns(files: Seq<Seq<Seq<char>>>) -> Seq<Seq<char>>
    decreases files.len(),
{
    if files.len() == 0 {
        Seq::empty()
    } else {
        all_patterns(files.drop_last()) + file_patterns(files.last())
    }
}

/// The text without byte order marks at its start.
fn strip_marks(text: &str) -> (out: String)
    ensures
        out@ == without_marks(text@),
{
    let chars = text_chars(text);
    let mut i: usize = 0;
    assert(chars@.skip(0) =~= chars@);
    while i < chars.len() && chars[i] == BYTE_ORDER_MARK
        invariant
            i <= chars@.len(),
            without_marks(chars@) == without_marks(chars@.skip(i as int)),
        decreases chars@.len() - i,
    {
        assert(chars@.skip(i as int).skip(1) =~= chars@.skip(i + 1));
        i += 1;
    }
    chars_text(&chars, i, chars.len())
}

/// Adds the patterns of one file.
fn add_file(builder: &mut GitignoreBuilder, file: &IgnoreFile)
    requires
        has_default_options(*old(builder)),
    ensures
        builder_patterns(*final(builder)) == builder_patterns(*old(builder)) + file_patterns(file@),
        builder_root(*final(builder)) == builder_root(*old(builder)),
        has_default_options(*final(builder)),
{
    let ghost start = builder_patterns(*builder);
    let ghost root = builder_root(*builder);
    let ghost lines = file@;
    assert(start + Seq::<Seq<char>>::empty() =~= start);
    let mut i: usize = 0;
    while i < file.lines.len()
        invariant
            i <= file.lines@.len() == lines.len(),
            lines == seq_view(file.lines@),
            builder_patterns(*builder) == start + file_patterns(lines.take(i as int)),
            builder_root(*builder) == root,
            has_default_options(*builder),
        decreases file.lines@.len() - i,
    {
        let ghost upto = lines.take(i + 1);
        assert(upto.drop_last() =~= lines.take(i as int));
        assert(upto.last() == file.lines@[i as int]@);
        if i == 0 {
            let first = strip_marks(file.lines[0].as_str());
            add_line(builder, &file.path, first.as_str());
            assert(upto[0] == lines[0]);
            assert(start + Seq::<Seq<char>>::empty() =~= start);
        } else {
            add_line(builder, &file.path, file.lines[i].as_str());
            assert((start + file_patterns(lines.take(i as int))) + line_patterns(lines[i as int])
                =~= start + (file_patterns(lines.take(i as int)) + line_patterns(
                lines[i as int],
            )));
        }
        i += 1;
    }
    assert(lines.take(i as int) =~= lines);
}

/// What the ignore rules in the files amount to, or why they cannot be used.
pub open spec fn rules_of(files: Seq<Seq<Seq<char>>>) -> Result<Seq<Seq<char>>, IoErrorView> {
    match build_error(all_patterns(files)) {
        None => Ok(all_patterns(files)),
        Some(message) => Err(IoErrorView { kind: IoErrorKind::Other, message }),
    }
}

/// Makes a matcher of the rules in the files, relative to `root`.
pub fn build_ignore_matcher(root: &FsPath, files: &Vec<IgnoreFile>) -> (matcher: Result<
    Gitignore,
    IoError,
>)
    ensures
        matcher is Ok <==> rules_of(seq_view(files@)) is Ok,
        matcher matches Ok(m) ==> matcher_patterns(m) == rules_of(seq_view(files@))->Ok_0,
        matcher matches Ok(m) ==> matcher_patterns(m) == all_patterns(seq_view(files@)),
        matcher matches Ok(m) ==> matcher_patterns(m).len() > 0 ==> matcher_root(m)
            == without_dot_slash(root@),
        matcher matches Err(e) ==> rules_of(seq_view(files@)) == Err::<Seq<Seq<char>>, IoErrorView>(
            e@,
        ),
        all_patterns(seq_view(files@)).len() == 0 ==> matcher is Ok,
{
    let mut builder = new_builder(root);
    let ghost all = seq_view(files@);
    let mut i: usize = 0;
    assert(builder_patterns(builder) =~= all_patterns(all.take(0)));
    while i < files.len()
        invariant
            i <= files@.len() == all.len(),
            all == seq_view(files@),
            builder_patterns(builder) == all_patterns(all.take(i as int)),
            builder_root(builder) == without_dot_slash(root@),
            has_default_options(builder),
        decreases files@.len() - i,
    {
        add_file(&mut builder, &files[i]);
        assert(all.take(i + 1).drop_last() =~= all.take(i as int));
        assert(all.take(i + 1).last() == files@[i as int]@);
        i += 1;
    }
    assert(all.take(i as int) =~= all);
    match build(&builder) {
        Ok(matcher) => Ok(matcher),
        Err(message) => Err(IoError::new(IoErrorKind::Other, message.as_str())),
    }
}

/// A path that is relative and does not start with a `.` component is matched as
/// it is.
pub proof fn lemma_matchable(root: Seq<u8>, path: Seq<u8>)
    requires
        is_absolute(root),
        !is_absolute(path),
        !seq![DOT, SLASH].is_prefix_of(path),
    ensures
        matched_part(root, path) == path,
{
    if root.is_prefix_of(path) {
        assert(path.subrange(0, root.len() as int)[0] == path[0]);
    }
}

/// The directory `steps` above the path, if there is one.
pub open spec fn directory_above(path: Seq<u8>, steps: nat) -> Option<Seq<u8>>
    decreases steps,
{
    if steps == 0 {
        Some(path)
    } else {
        match parent_of(path) {
            Some(above) => directory_above(above, (steps - 1) as nat),
            None => None,
        }
    }
}

/// Where nothing is said about a path and the directories above it, up to one about which
/// something is said, that decides: what lies in an ignored directory is ignored, at
/// whatever depth.
pub proof fn law_nearest_directory_decides(
    patterns: Seq<Seq<char>>,
    path: Seq<u8>,
    is_dir: bool,
    steps: nat,
    dir: Seq<u8>,
    ignored: bool,
)
    requires
        steps > 0,
        directory_above(path, steps) == Some(dir),
        verdict(patterns, dir, true) == Some(ignored),
        verdict(patterns, path, is_dir) is None,
        forall|k: nat|
            0 < k < steps ==> (#[trigger] directory_above(path, k) matches Some(between)
                ==> verdict(patterns, between, true) is None),
    ensures
        nearest_verdict(patterns, path, is_dir) == ignored,
    decreases steps,
{
    let above = parent_of(path)->0;
    assert(directory_above(above, 0) == Some(above));
    if steps == 1 {
        assert(nearest_verdict(patterns, above, true) == ignored);
    } else {
        assert(directory_above(path, 1) == Some(above));
        assert forall|k: nat| 0 < k < steps - 1 implies (#[trigger] directory_above(above, k) matches
        Some(between) ==> verdict(patterns, between, true) is None) by {
            assert(directory_above(path, k + 1) == directory_above(above, k));
        }
        law_nearest_directory_decides(patterns, above, true, (steps - 1) as nat, dir, ignored);
    }
}

/// The rules of several files are those of each, one file behind the other: none is lost,
/// and those of an earlier file stand before those of a later one.
pub proof fn law_rules_of_files_add_up(a: Seq<Seq<Seq<char>>>, b: Seq<Seq<Seq<char>>>)
    ensures
        all_patterns(a + b) == all_patterns(a) + all_patterns(b),
        all_patterns(Seq::empty()) == Seq::<Seq<char>>::empty(),
        forall|file: Seq<Seq<char>>| #[trigger]
            all_patterns(seq![file]) == file_patterns(file),
    decreases b.len(),
{
    assert forall|file: Seq<Seq<char>>| #[trigger] all_patterns(seq![file]) == file_patterns(
        file,
    ) by {
        assert(seq![file].drop_last() =~= Seq::empty());
        assert(all_patterns(seq![file].drop_last()) =~= Seq::empty());
        assert(Seq::empty() + file_patterns(file) =~= file_patterns(file));
    }
    if b.len() == 0 {
        assert(a + b =~= a);
        assert(all_patterns(a) + all_patterns(b) =~= all_patterns(a));
    } else {
        let less = b.drop_last();
        law_rules_of_files_add_up(a, less);
        assert((a + b).drop_last() =~= a + less);
        assert((a + b).last() == b.last());
        assert((all_patterns(a) + all_patterns(less)) + file_patterns(b.last()) =~= all_patterns(a)
            + (all_patterns(less) + file_patterns(b.last())));
    }
}

/// The line that counts: the first one of a file without byte order marks at its start,
/// any other as it is.
pub open spec fn counted_line(lines: Seq<Seq<char>>, i: int) -> Seq<char> {
    if i == 0 {
        without_marks(lines[0])
    } else {
        lines[i]
    }
}

/// The rules of a file are those of its lines, one behind the other.
pub proof fn law_rules_of_lines_add_up(lines: Seq<Seq<char>>, i: int)
    requires
        0 <= i < lines.len(),
    ensures
        file_patterns(lines.take(i + 1)) == file_patterns(lines.take(i)) + line_patterns(
            if i == 0 {
                without_marks(lines[0])
            } else {
                lines[i]
            },
        ),
        file_patterns(Seq::empty()) == Seq::<Seq<char>>::empty(),
        lines.take(lines.len() as int) == lines,
{
    let upto = lines.take(i + 1);
    assert(lines.take(lines.len() as int) =~= lines);
    assert(upto.drop_last() =~= lines.take(i));
    if i == 0 {
        assert(upto[0] == lines[0]);
        assert(lines.take(0) =~= Seq::empty());
        assert(Seq::empty() + line_patterns(without_marks(lines[0])) =~= line_patterns(
            without_marks(lines[0]),
        ));
    }
}

proof fn lemma_rules_in_file(lines: Seq<Seq<char>>, i: int, n: int)
    requires
        0 <= i < n <= lines.len(),
    ensures
        forall|p: Seq<char>| #[trigger]
            line_patterns(counted_line(lines, i)).contains(p) ==> file_patterns(
                lines.take(n),
            ).contains(p),
    decreases n - i,
{
    law_rules_of_lines_add_up(lines, n - 1);
    let before = file_patterns(lines.take(n - 1));
    let added = line_patterns(counted_line(lines, n - 1));
    let all = file_patterns(lines.take(n));
    if i < n - 1 {
        lemma_rules_in_file(lines, i, n - 1);
    }
    assert forall|p: Seq<char>| #[trigger]
        line_patterns(counted_line(lines, i)).contains(p) implies all.contains(p) by {
        if i < n - 1 {
            let k = choose|k: int| 0 <= k < before.len() && before[k] == p;
            assert(all[k] == p);
        } else {
            let k = choose|k: int| 0 <= k < added.len() && added[k] == p;
            assert(all[before.len() + k] == p);
        }
    }
}

/// Every rule that a line of any of the files gives counts.
pub proof fn law_every_rule_counts(files: Seq<Seq<Seq<char>>>, f: int, l: int, pattern: Seq<char>)
    requires
        0 <= f < files.len(),
        0 <= l < files[f].len(),
        line_patterns(
            if l == 0 {
                without_marks(files[f][0])
            } else {
                files[f][l]
            },
        ).contains(pattern),
    ensures
        rules_of(files) matches Ok(rules) ==> rules.contains(pattern),
        all_patterns(files).contains(pattern),
{
    let lines = files[f];
    let a = files.take(f);
    let b = files.skip(f + 1);
    assert(line_patterns(counted_line(lines, l)).contains(pattern));
    lemma_rules_in_file(lines, l, lines.len() as int);
    assert(lines.take(lines.len() as int) =~= lines);
    law_rules_of_files_add_up(a, seq![lines]);
    law_rules_of_files_add_up(a + seq![lines], b);
    assert(a + seq![lines] + b =~= files);
    let own = file_patterns(lines);
    let k = choose|k: int| 0 <= k < own.len() && own[k] == pattern;
    assert(all_patterns(files)[all_patterns(a).len() + k] == pattern);
}

/// The rules are all that the files give, and nothing else; they cannot be used just where
/// no matcher can be made of them.
pub proof fn law_rules_are_those_of_the_files(files: Seq<Seq<Seq<char>>>)
    ensures
        rules_of(files) matches Ok(rules) ==> rules == all_patterns(files) && build_error(
            all_patterns(files),
        ) is None,
        rules_of(files) matches Err(error) ==> error.kind == IoErrorKind::Other && build_error(
            all_patterns(files),
        ) == Some(error.message),
{
}

/// Byte order marks are taken off the start of a text, and nothing else.
pub proof fn law_only_marks_are_taken_off(s: Seq<char>)
    ensures
        exists|n: int|
            0 <= n <= s.len() && without_marks(s) == #[trigger] s.skip(n) && forall|k: int|
                0 <= k < n ==> s[k] == '\u{feff}',
        without_marks(s).len() > 0 ==> without_marks(s)[0] != '\u{feff}',
    decreases s.len(),
{
    if s.len() > 0 && s[0] == BYTE_ORDER_MARK {
        let t = s.skip(1);
        law_only_marks_are_taken_off(t);
        let n = choose|n: int|
            0 <= n <= t.len() && without_marks(t) == #[trigger] t.skip(n) && forall|k: int|
                0 <= k < n ==> t[k] == '\u{feff}';
        assert(t.skip(n) =~= s.skip(n + 1));
        assert forall|k: int| 0 <= k < n + 1 implies s[k] == '\u{feff}' by {
            if k > 0 {
                assert(t[k - 1] == s[k]);
            }
        }
    } else {
        assert(s.skip(0) =~= s);
    }
}

/// A path about which nothing is said, nor about any directory above it, is not ignored.
pub proof fn law_unmentioned_paths_are_not_ignored(
    patterns: Seq<Seq<char>>,
    path: Seq<u8>,
    is_dir: bool,
)
    requires
        verdict(patterns, path, is_dir) is None,
        forall|k: nat|
            0 < k ==> (#[trigger] directory_above(path, k) matches Some(above) ==> verdict(
                patterns,
                above,
                true,
            ) is None),
    ensures
        !nearest_verdict(patterns, path, is_dir),
    decreases components(path).len(),
{
    if let Some(above) = parent_of(path) {
        law_parent_drops_last(path);
        assert(directory_above(above, 0) == Some(above));
        assert(directory_above(path, 1) == Some(above));
        assert forall|k: nat| 0 < k implies (#[trigger] directory_above(above, k) matches Some(
            higher,
        ) ==> verdict(patterns, higher, true) is None) by {
            assert(directory_above(path, k + 1) == directory_above(above, k));
        }
        law_unmentioned_paths_are_not_ignored(patterns, above, true);
    }
}

/// What is said about a path itself counts, whatever is said about directories above it.
pub proof fn law_own_verdict_counts(
    root: Seq<u8>,
    patterns: Seq<Seq<char>>,
    path: Seq<u8>,
    is_dir: bool,
    ignored: bool,
)
    requires
        verdict(patterns, path, is_dir) == Some(ignored),
        is_absolute(root),
        !is_absolute(path),
        !seq![DOT, SLASH].is_prefix_of(path),
    ensures
        patterns_ignore(root, patterns, path, is_dir) == ignored,
{
    lemma_matchable(root, path);
}

/// A path is matched without the directory of the rules where it starts with it, and
/// without a `./` before that; a bare name is matched as it is.
pub proof fn law_paths_are_matched_below_the_rules(root: Seq<u8>, path: Seq<u8>)
    ensures
        !path.contains(SLASH) ==> matched_part(root, path) == path,
        !seq![DOT, SLASH].is_prefix_of(root + seq![SLASH] + path) ==> matched_part(
            root,
            root + seq![SLASH] + path,
        ) == path,
        !seq![DOT, SLASH].is_prefix_of(path) && !root.is_prefix_of(path) ==> matched_part(
            root,
            path,
        ) == path,
        !path.contains(SLASH) ==> matched_part(root, seq![DOT, SLASH] + path) == path,
{
    if !path.contains(SLASH) {
        if seq![DOT, SLASH].is_prefix_of(path) {
            assert(path.subrange(0, 2)[1] == SLASH);
            assert(path[1] == SLASH);
        }
        let dotted = seq![DOT, SLASH] + path;
        assert(dotted.subrange(0, 2) =~= seq![DOT, SLASH]);
        assert(dotted.skip(2) =~= path);
    }
    let whole = root + seq![SLASH] + path;
    let n = root.len() as int;
    assert(whole[n] == SLASH);
    assert(whole.subrange(0, n) =~= root);
    assert(whole.skip(n).skip(1) =~= path);
}

} // verus!
