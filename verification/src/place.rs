//! Paths of the file system as text and components.

use vstd::prelude::*;
use vstd::slice::slice_subrange;
use crate::text::{
    begins_with, chars_of, first_at, is_lower, is_upper, lemma_first_at, lemma_first_at_unique,
    lower, same_text, split_on, text_of, text_starts_with, upper,
};

verus! {

/// One component of a path, as std's `Path::components` tells them apart.
#[derive(Clone, Debug, PartialEq, Eq)]
pub enum Part {
    Prefix(String),
    Root,
    Current,
    Parent,
    Normal(String),
}

/// A [`Part`] with its text as a sequence of characters.
pub enum PartView {
    Prefix(Seq<char>),
    Root,
    Current,
    Parent,
    Normal(Seq<char>),
}

impl View for Part {
    type V = PartView;

    open spec fn view(&self) -> PartView {
        match *self {
            Part::Prefix(text) => PartView::Prefix(text@),
            Part::Root => PartView::Root,
            Part::Current => PartView::Current,
            Part::Parent => PartView::Parent,
            Part::Normal(text) => PartView::Normal(text@),
        }
    }
}

/// The components of a path.
pub open spec fn parts_view(parts: Seq<Part>) -> Seq<PartView> {
    parts.map_values(|part: Part| part@)
}

/// The texts of a list.
pub open spec fn texts_view(texts: Seq<String>) -> Seq<Seq<char>> {
    texts.map_values(|text: String| text@)
}

/// The components that names make.
pub open spec fn normal_parts(names: Seq<Seq<char>>) -> Seq<PartView> {
    names.map_values(|name: Seq<char>| PartView::Normal(name))
}

/// A path: the text under which it is shown, its components, and the separator with which the
/// machine joins paths.
#[derive(Clone, Debug, PartialEq, Eq)]
pub struct Place {
    pub shown: String,
    pub parts: Vec<Part>,
    pub separator: char,
}

/// A [`Place`] with its text and components as sequences.
#[verifier::ext_equal]
pub struct PlaceView {
    pub shown: Seq<char>,
    pub parts: Seq<PartView>,
    pub separator: char,
}

impl View for Place {
    type V = PlaceView;

    open spec fn view(&self) -> PlaceView {
        PlaceView {
            shown: self.shown@,
            parts: parts_view(self.parts@),
            separator: self.separator,
        }
    }
}

/// Whether a text is one component on every machine: not empty, without separators and colons, and
/// neither `.` nor `..`.
pub open spec fn is_plain_name(text: Seq<char>) -> bool {
    &&& text.len() > 0
    &&& text != "."@
    &&& text != ".."@
    &&& !text.contains('/')
    &&& !text.contains('\\')
    &&& !text.contains(':')
}

/// Whether all machines agree on how a text falls into components: it holds neither backslashes nor
/// colons, and does not begin with two slashes.
pub open spec fn is_agreed_path(text: Seq<char>) -> bool {
    &&& !text.contains('\\')
    &&& !text.contains(':')
    &&& !(text.len() >= 2 && text[0] == '/' && text[1] == '/')
}

/// The components that the pieces between slashes make: `..` leads up, an empty piece and `.` are
/// none, and anything else is a name.
pub open spec fn piece_parts(pieces: Seq<Seq<char>>) -> Seq<PartView>
    decreases pieces.len(),
{
    if pieces.len() == 0 {
        Seq::empty()
    } else {
        let front = piece_parts(pieces.drop_last());
        let last = pieces.last();
        if last.len() == 0 || last == "."@ {
            front
        } else if last == ".."@ {
            front.push(PartView::Parent)
        } else {
            front.push(PartView::Normal(last))
        }
    }
}

/// The components of a path on which all machines agree: those of its pieces, behind the root where
/// a slash stands at the front, and behind `.` where that is the first piece.
pub open spec fn agreed_parts(text: Seq<char>) -> Option<Seq<PartView>> {
    let pieces = split_on(text, '/');
    if !is_agreed_path(text) {
        None
    } else if text.len() > 0 && text[0] == '/' {
        Some(seq![PartView::Root] + piece_parts(pieces))
    } else if pieces[0] == "."@ {
        Some(seq![PartView::Current] + piece_parts(pieces))
    } else {
        Some(piece_parts(pieces))
    }
}

/// Whether a name leads to something directly below a directory: it is not empty, neither `.` nor
/// `..`, and holds no slash.
pub open spec fn is_step_name(name: Seq<char>) -> bool {
    &&& name.len() > 0
    &&& name != "."@
    &&& name != ".."@
    &&& !name.contains('/')
}

/// Calls std's `Path::components` on a text. Of a text without backslashes and colons that does not
/// begin with two slashes, the pieces between slashes are the components: repeated and trailing
/// slashes and `.` are normalized away, but for a slash or a `.` at the front, which are the root
/// and the current directory; `..` is the parent, and anything else a name. How any other text falls
/// into components depends on the machine; there a name is, without a prefix before it, still
/// neither empty, `.` nor `..`, and without slashes.
#[verifier::external_body]
pub(crate) fn path_parts(text: &str) -> (parts: Vec<Part>)
    ensures
        agreed_parts(text@) matches Some(agreed) ==> parts_view(parts@) == agreed,
        forall|i: int|
            0 <= i < parts@.len() && !(parts@[0] is Prefix) ==> ((#[trigger] parts@[i])@ matches
                PartView::Normal(name) ==> is_step_name(name)),
{
    let mut parts = Vec::new();
    for component in std::path::Path::new(text).components() {
        let text = component.as_os_str().to_string_lossy().into_owned();
        parts.push(match component {
            std::path::Component::Prefix(_) => Part::Prefix(text),
            std::path::Component::RootDir => Part::Root,
            std::path::Component::CurDir => Part::Current,
            std::path::Component::ParentDir => Part::Parent,
            std::path::Component::Normal(_) => Part::Normal(text),
        });
    }
    parts
}

/// Whether two components are equal.
pub fn same_part(left: &Part, right: &Part) -> (same: bool)
    ensures
        same == (left@ == right@),
{
    match (left, right) {
        (Part::Prefix(a), Part::Prefix(b)) => same_text(a.as_str(), b.as_str()),
        (Part::Root, Part::Root) => true,
        (Part::Current, Part::Current) => true,
        (Part::Parent, Part::Parent) => true,
        (Part::Normal(a), Part::Normal(b)) => same_text(a.as_str(), b.as_str()),
        _ => false,
    }
}

/// A copy of a component.
pub fn copy_part(part: &Part) -> (copy: Part)
    ensures
        copy@ == part@,
{
    match part {
        Part::Prefix(text) => Part::Prefix(text.clone()),
        Part::Root => Part::Root,
        Part::Current => Part::Current,
        Part::Parent => Part::Parent,
        Part::Normal(text) => Part::Normal(text.clone()),
    }
}

/// The components from a position on.
pub fn copy_parts(parts: &Vec<Part>, from: usize) -> (rest: Vec<Part>)
    requires
        from <= parts@.len(),
    ensures
        parts_view(rest@) == parts_view(parts@).skip(from as int),
{
    let mut rest: Vec<Part> = Vec::new();
    for i in from..parts.len()
        invariant
            from <= parts@.len(),
            parts_view(rest@) == parts_view(parts@).subrange(from as int, i as int),
    {
        let part = copy_part(&parts[i]);
        let ghost before = rest@;
        rest.push(part);
        assert(parts_view(rest@) =~= parts_view(before).push(part@));
        assert(parts_view(parts@).subrange(from as int, i + 1) =~= parts_view(parts@).subrange(
            from as int,
            i as int,
        ).push(parts_view(parts@)[i as int]));
    }
    assert(parts_view(parts@).subrange(from as int, parts@.len() as int) =~= parts_view(
        parts@,
    ).skip(from as int));
    rest
}

/// Whether a path begins with the components of another.
pub open spec fn begins_with_parts(path: Seq<PartView>, root: Seq<PartView>) -> bool {
    root.len() <= path.len() && path.take(root.len() as int) == root
}

/// Whether a path begins with the components of another.
pub fn parts_start_with(path: &Vec<Part>, root: &Vec<Part>) -> (answer: bool)
    ensures
        answer == begins_with_parts(parts_view(path@), parts_view(root@)),
{
    if root.len() > path.len() {
        return false;
    }
    let ghost whole = parts_view(path@);
    let ghost front = parts_view(root@);
    for i in 0..root.len()
        invariant
            root@.len() <= path@.len(),
            whole == parts_view(path@),
            front == parts_view(root@),
            forall|k: int| 0 <= k < i ==> #[trigger] whole[k] == front[k],
    {
        if !same_part(&path[i], &root[i]) {
            assert(whole[i as int] != front[i as int]);
            assert(whole.take(front.len() as int)[i as int] != front[i as int]);
            return false;
        }
    }
    assert(whole.take(front.len() as int) =~= front);
    true
}

/// Whether a character parts names, on a machine with a separator.
pub open spec fn parts_names(ch: char, separator: char) -> bool {
    ch == separator || ch == '/'
}

/// Whether a text is a drive alone, on a machine that has drives.
pub open spec fn is_drive(text: Seq<char>, separator: char) -> bool {
    separator == '\\' && text.len() == 2 && text[1] == ':' && (is_lower(text[0]) || is_upper(
        text[0],
    ))
}

/// A text with a separator behind it, unless it is empty, a drive alone, or ends with one.
pub open spec fn with_separator(text: Seq<char>, separator: char) -> Seq<char> {
    if text.len() == 0 || parts_names(text.last(), separator) || is_drive(text, separator) {
        text
    } else {
        text.push(separator)
    }
}

/// The text of a component.
pub open spec fn part_text(part: PartView, separator: char) -> Seq<char> {
    match part {
        PartView::Prefix(text) => text,
        PartView::Root => seq![separator],
        PartView::Current => "."@,
        PartView::Parent => ".."@,
        PartView::Normal(name) => name,
    }
}

/// The text that components make.
pub open spec fn spelled(parts: Seq<PartView>, separator: char) -> Seq<char>
    decreases parts.len(),
{
    if parts.len() == 0 {
        Seq::empty()
    } else {
        let front = spelled(parts.drop_last(), separator);
        match parts.last() {
            PartView::Root => front.push(separator),
            part => with_separator(front, separator) + part_text(part, separator),
        }
    }
}

/// Whether a path is one that Windows takes as it is written, by its prefix.
pub open spec fn is_verbatim(parts: Seq<PartView>, separator: char) -> bool {
    separator == '\\' && parts.len() > 0 && (parts[0] matches PartView::Prefix(text)
        && begins_with(text, "\\\\?\\"@))
}

/// Whether a character parts the names of a path; in one that is taken as it is written, a slash
/// does not.
pub open spec fn breaks(ch: char, verbatim: bool, separator: char) -> bool {
    if verbatim {
        ch == separator
    } else {
        parts_names(ch, separator)
    }
}

/// Whether a path has a root.
pub open spec fn has_root(parts: Seq<PartView>) -> bool {
    ||| parts.len() > 0 && parts[0] is Root
    ||| parts.len() > 1 && parts[0] is Prefix && parts[1] is Root
}

/// How long the prefix of a path is.
pub open spec fn prefix_length(parts: Seq<PartView>) -> int {
    if parts.len() > 0 {
        match parts[0] {
            PartView::Prefix(name) => name.len() as int,
            _ => 0,
        }
    } else {
        0
    }
}

/// Where the names of a path begin in its text: behind the prefix, and the root or a `.` at the
/// front.
pub open spec fn body_start(text: Seq<char>, parts: Seq<PartView>, separator: char) -> int {
    let verbatim = is_verbatim(parts, separator);
    let prefix = prefix_length(parts);
    if prefix >= text.len() {
        text.len() as int
    } else if has_root(parts) {
        if breaks(text[prefix], verbatim, separator) {
            prefix + 1
        } else {
            prefix
        }
    } else if text[prefix] == '.' && (prefix + 1 == text.len() || breaks(
        text[prefix + 1],
        verbatim,
        separator,
    )) {
        prefix + 1
    } else {
        prefix
    }
}

/// Where the last piece of a text begins whose pieces begin at `start`.
pub open spec fn last_piece(text: Seq<char>, start: int, verbatim: bool, separator: char) -> int
    decreases text.len(),
{
    if text.len() <= start || text.len() == 0 || breaks(text.last(), verbatim, separator) {
        text.len() as int
    } else {
        last_piece(text.drop_last(), start, verbatim, separator)
    }
}

/// A text without its last piece and the separator before it.
pub open spec fn without_piece(text: Seq<char>, start: int, verbatim: bool, separator: char) -> Seq<
    char,
> {
    let at = last_piece(text, start, verbatim, separator);
    if at > start {
        text.take(at - 1)
    } else {
        text.take(start)
    }
}

/// Whether a piece is no component.
pub open spec fn is_blank(piece: Seq<char>, verbatim: bool) -> bool {
    piece.len() == 0 || (piece == "."@ && !verbatim)
}

/// A text without the pieces at its end that are no components.
pub open spec fn without_blanks(text: Seq<char>, start: int, verbatim: bool, separator: char) -> Seq<
    char,
>
    decreases text.len(),
    via without_blanks_shrinks
{
    if 0 <= start < text.len() && is_blank(
        text.skip(last_piece(text, start, verbatim, separator)),
        verbatim,
    ) {
        without_blanks(
            without_piece(text, start, verbatim, separator),
            start,
            verbatim,
            separator,
        )
    } else {
        text
    }
}

#[via_fn]
proof fn without_blanks_shrinks(text: Seq<char>, start: int, verbatim: bool, separator: char) {
    if 0 <= start < text.len() {
        lemma_last_piece_at(text, start, verbatim, separator);
    }
}

proof fn lemma_last_piece_at(text: Seq<char>, start: int, verbatim: bool, separator: char)
    requires
        0 <= start <= text.len(),
    ensures
        start <= last_piece(text, start, verbatim, separator) <= text.len(),
        without_piece(text, start, verbatim, separator).len() <= text.len(),
        start < text.len() ==> without_piece(text, start, verbatim, separator).len() < text.len(),
        start <= without_piece(text, start, verbatim, separator).len(),
    decreases text.len(),
{
    if text.len() > start && !breaks(text.last(), verbatim, separator) {
        lemma_last_piece_at(text.drop_last(), start, verbatim, separator);
    }
}

proof fn lemma_blanks_shrink(text: Seq<char>, start: int, verbatim: bool, separator: char)
    ensures
        without_blanks(text, start, verbatim, separator).len() <= text.len(),
    decreases text.len(),
{
    if 0 <= start < text.len() {
        lemma_last_piece_at(text, start, verbatim, separator);
        lemma_blanks_shrink(
            without_piece(text, start, verbatim, separator),
            start,
            verbatim,
            separator,
        );
    }
}

/// The text of the directory that holds a path: that before its last component.
pub open spec fn parent_text(shown: Seq<char>, parts: Seq<PartView>, separator: char) -> Seq<char> {
    let verbatim = is_verbatim(parts, separator);
    let start = body_start(shown, parts, separator);
    let text = without_blanks(shown, start, verbatim, separator);
    if text.len() > start {
        without_blanks(
            without_piece(text, start, verbatim, separator),
            start,
            verbatim,
            separator,
        )
    } else if text.len() > 0 {
        text.drop_last()
    } else {
        text
    }
}

/// Where the last `count` components begin in a text.
pub open spec fn tail_start(
    text: Seq<char>,
    start: int,
    count: int,
    verbatim: bool,
    separator: char,
) -> int
    decreases count,
{
    let trimmed = without_blanks(text, start, verbatim, separator);
    let at = last_piece(trimmed, start, verbatim, separator);
    if count <= 1 || at <= start {
        at
    } else {
        tail_start(trimmed.take(at - 1), start, count - 1, verbatim, separator)
    }
}

/// The text of the last `count` components of a path, with what stands between them.
pub open spec fn tail_text(
    shown: Seq<char>,
    parts: Seq<PartView>,
    count: int,
    separator: char,
) -> Seq<char> {
    let verbatim = is_verbatim(parts, separator);
    let start = body_start(shown, parts, separator);
    if count <= 0 {
        Seq::empty()
    } else {
        without_blanks(shown, start, verbatim, separator).skip(
            tail_start(shown, start, count, verbatim, separator),
        )
    }
}

/// Names below a path, joined to its text.
pub open spec fn joined_text(base: Seq<char>, names: Seq<Seq<char>>, separator: char) -> Seq<char>
    decreases names.len(),
{
    if names.len() == 0 {
        base
    } else {
        with_separator(joined_text(base, names.drop_last(), separator), separator) + names.last()
    }
}

impl PlaceView {
    /// The path of names below this one. Where paths are taken as they are written, it is spelled
    /// anew.
    pub open spec fn below(self, names: Seq<Seq<char>>) -> PlaceView {
        let parts = self.parts + normal_parts(names);
        PlaceView {
            shown: if names.len() > 0 && is_verbatim(self.parts, self.separator) {
                spelled(parts, self.separator)
            } else {
                joined_text(self.shown, names, self.separator)
            },
            parts,
            separator: self.separator,
        }
    }

    /// The path of a text below this one, whose components are names: the text is kept as it is,
    /// unless paths are taken as they are written.
    pub open spec fn joined(self, text: Seq<char>, names: Seq<Seq<char>>) -> PlaceView {
        let parts = self.parts + normal_parts(names);
        PlaceView {
            shown: if text.len() > 0 && is_verbatim(self.parts, self.separator) {
                spelled(parts, self.separator)
            } else {
                with_separator(self.shown, self.separator) + text
            },
            parts,
            separator: self.separator,
        }
    }

    /// The text of the components below a path that this one lies within.
    pub open spec fn text_below(self, root: PlaceView) -> Seq<char> {
        tail_text(
            self.shown,
            self.parts,
            self.parts.len() - root.parts.len(),
            self.separator,
        )
    }

    /// The path of the directory that holds this one, if there is one.
    pub open spec fn parent(self) -> Option<PlaceView> {
        if self.parts.len() == 0 || self.parts.last() is Root || self.parts.last() is Prefix {
            None
        } else {
            Some(
                PlaceView {
                    shown: parent_text(self.shown, self.parts, self.separator),
                    parts: self.parts.drop_last(),
                    separator: self.separator,
                },
            )
        }
    }

    /// The name at the end of the path.
    pub open spec fn file_name(self) -> Option<Seq<char>> {
        if self.parts.len() == 0 {
            None
        } else {
            match self.parts.last() {
                PartView::Normal(name) => Some(name),
                _ => None,
            }
        }
    }

    /// Whether this path lies at or below another.
    pub open spec fn within(self, root: PlaceView) -> bool {
        begins_with_parts(self.parts, root.parts)
    }

    /// The components below a path that this one lies within.
    pub open spec fn relative_to(self, root: PlaceView) -> Seq<PartView> {
        self.parts.skip(root.parts.len() as int)
    }
}

/// A path below another lies within it, and is the names that were joined away from it.
pub proof fn joined_paths_stay_below(base: PlaceView, names: Seq<Seq<char>>)
    ensures
        base.below(names).within(base),
        base.below(names).relative_to(base) == normal_parts(names),
{
    let parts = base.parts + normal_parts(names);
    assert(parts.take(base.parts.len() as int) =~= base.parts);
    assert(parts.skip(base.parts.len() as int) =~= normal_parts(names));
}

/// The directory of a name below a path is that path: it has its components, and its text where
/// nothing at the end of that is no component.
pub proof fn parents_of_children(base: PlaceView, name: Seq<char>)
    requires
        base.separator == '/' || base.separator == '\\',
        base.parts.len() > 0,
        !(base.parts.last() is Prefix),
        !is_verbatim(base.parts, base.separator),
        !is_drive(base.shown, base.separator),
        base.shown.len() > prefix_length(base.parts),
        base.shown == without_blanks(
            base.shown,
            body_start(base.shown, base.parts, base.separator),
            false,
            base.separator,
        ),
        body_start(base.shown, base.parts, base.separator) == base.shown.len() ==> (parts_names(
            base.shown.last(),
            base.separator,
        ) || base.parts.last() is Current),
        is_step_name(name),
        !name.contains(base.separator),
    ensures
        base.below(seq![name]).parent() == Some(base),
        base.below(seq![name]).file_name() == Some(name),
{
    let child = base.below(seq![name]);
    let separator = base.separator;
    let start = body_start(base.shown, base.parts, separator);
    assert(child.parts.last() == PartView::Normal(name));
    assert(child.parts.drop_last() =~= base.parts);
    assert(child.parts[0] == base.parts[0]);
    assert(seq![name].drop_last() =~= Seq::<Seq<char>>::empty());
    assert(joined_text(base.shown, Seq::empty(), separator) == base.shown);
    let front = with_separator(base.shown, separator);
    assert(child.shown == front + name);
    assert(child.shown.skip(front.len() as int) =~= name);
    assert(has_root(child.parts) == has_root(base.parts)) by {
        if base.parts.len() > 1 {
            assert(child.parts[1] == base.parts[1]);
        }
    }
    assert forall|i: int| 0 <= i < base.shown.len() implies child.shown[i] == base.shown[i] by {}
    if base.shown.len() > start {
        lemma_last_piece_at(base.shown, start, false, separator);
        let at = last_piece(base.shown, start, false, separator);
        lemma_blanks_shrink(
            without_piece(base.shown, start, false, separator),
            start,
            false,
            separator,
        );
        assert(!is_blank(base.shown.skip(at), false));
        if parts_names(base.shown.last(), separator) {
            assert(at == base.shown.len());
            assert(base.shown.skip(at).len() == 0);
        }
    }
    assert(body_start(child.shown, child.parts, separator) == start);
    lemma_last_name(front, name, start, separator);
    assert(without_blanks(child.shown, start, false, separator) == child.shown);
    assert(child.shown.take(front.len() - 1) =~= front.drop_last());
    assert(child.shown.take(start) =~= front.take(start));
    if front != base.shown {
        assert(front.drop_last() =~= base.shown);
    }
    assert(without_piece(child.shown, start, false, separator) =~= base.shown);
}

/// A name behind a separator, or where the names begin, is the last piece.
proof fn lemma_last_name(front: Seq<char>, name: Seq<char>, start: int, separator: char)
    requires
        0 <= start <= front.len(),
        front.len() == start || parts_names(front.last(), separator),
        !name.contains('/'),
        !name.contains(separator),
    ensures
        last_piece(front + name, start, false, separator) == front.len(),
    decreases name.len(),
{
    if name.len() > 0 {
        let shorter = name.drop_last();
        assert((front + name).drop_last() =~= front + shorter);
        assert(name.contains(name.last()));
        assert((front + name).last() == name.last());
        assert forall|ch: char| shorter.contains(ch) implies name.contains(ch) by {
            let i = shorter.index_of(ch);
            assert(name[i] == ch);
        }
        lemma_last_name(front, shorter, start, separator);
    } else {
        assert(front + name =~= front);
    }
}

/// A plain name is one component on every machine.
pub proof fn lemma_plain_name(name: Seq<char>)
    requires
        is_plain_name(name),
    ensures
        split_on(name, '/') == seq![name],
        agreed_parts(name) == Some(seq![PartView::Normal(name)]),
{
    lemma_first_at(name, '/');
    assert(split_on(name, '/') =~= seq![name]);
    assert(seq![name].drop_last() =~= Seq::<Seq<char>>::empty());
    assert(piece_parts(Seq::empty()) =~= Seq::<PartView>::empty());
    assert(piece_parts(seq![name]) =~= seq![PartView::Normal(name)]);
    assert(name.contains(name[0]));
}

proof fn lemma_split_append(text: Seq<char>, name: Seq<char>)
    requires
        !name.contains('/'),
    ensures
        split_on(text.push('/') + name, '/') == split_on(text, '/').push(name),
    decreases text.len(),
{
    let whole = text.push('/') + name;
    let at = first_at(text, '/');
    lemma_first_at(text, '/');
    assert forall|i: int| 0 <= i < at implies whole[i] != '/' by {
        assert(whole[i] == text[i]);
    }
    assert(whole[at] == '/');
    lemma_first_at_unique(whole, '/', at);
    if at >= text.len() {
        assert(whole.take(at) =~= text);
        assert(whole.skip(at + 1) =~= name);
        lemma_first_at(name, '/');
        assert(split_on(name, '/') =~= seq![name]);
        assert(split_on(text, '/') =~= seq![text]);
        assert(split_on(whole, '/') =~= split_on(text, '/').push(name));
    } else {
        let rest = text.skip(at + 1);
        assert(whole.take(at) =~= text.take(at));
        assert(whole.skip(at + 1) =~= rest.push('/') + name);
        lemma_split_append(rest, name);
        assert(split_on(whole, '/') =~= split_on(text, '/').push(name));
    }
}

proof fn lemma_name_reads_back(text: Seq<char>, name: Seq<char>)
    requires
        agreed_parts(text) is Some,
        is_plain_name(name),
    ensures
        agreed_parts(with_separator(text, '/') + name) == Some(
            agreed_parts(text)->0.push(PartView::Normal(name)),
        ),
{
    let longer = with_separator(text, '/') + name;
    let pieces = split_on(text, '/');
    if text.len() == 0 {
        lemma_plain_name(name);
        assert(longer =~= name);
        lemma_first_at(text, '/');
        assert(pieces =~= seq![text]);
        assert(pieces.drop_last() =~= Seq::<Seq<char>>::empty());
        reveal_strlit(".");
        assert(piece_parts(Seq::empty()) =~= Seq::<PartView>::empty());
        assert(agreed_parts(text)->0 =~= Seq::<PartView>::empty());
    } else {
        let stem = if text.last() == '/' {
            text.drop_last()
        } else {
            text
        };
        let before = split_on(stem, '/');
        assert(longer =~= stem.push('/') + name);
        lemma_split_append(stem, name);
        assert(before.push(name).drop_last() =~= before);
        if text.last() == '/' {
            let none = Seq::<char>::empty();
            assert(text =~= stem.push('/') + none);
            lemma_split_append(stem, none);
            assert(before.push(none).drop_last() =~= before);
        }
        assert(piece_parts(split_on(longer, '/')) == piece_parts(pieces).push(
            PartView::Normal(name),
        ));
        assert(before.len() > 0);
        assert(split_on(longer, '/')[0] == pieces[0]);
        assert(longer[0] == text[0]);
        assert(is_agreed_path(longer)) by {
            assert forall|i: int| 0 <= i < longer.len() implies longer[i] != '\\' && longer[i]
                != ':' by {
                if i < text.len() {
                    assert(longer[i] == text[i]);
                    assert(text.contains(text[i]));
                } else if i >= longer.len() - name.len() {
                    assert(longer[i] == name[i - (longer.len() - name.len())]);
                    assert(name.contains(longer[i]));
                }
            }
            if text.len() >= 2 {
                assert(longer[1] == text[1]);
            } else if text[0] == '/' {
                assert(longer[1] == name[0]);
                assert(name.contains(name[0]));
            }
        }
        assert((seq![PartView::Root] + piece_parts(pieces)).push(PartView::Normal(name)) =~= seq![
            PartView::Root,
        ] + piece_parts(pieces).push(PartView::Normal(name)));
        assert((seq![PartView::Current] + piece_parts(pieces)).push(PartView::Normal(name))
            =~= seq![PartView::Current] + piece_parts(pieces).push(PartView::Normal(name)));
    }
}

/// Where slashes join paths, the text of plain names below a path that is agreed on reads back as
/// the components that the joining made.
pub proof fn shown_paths_read_back(base: PlaceView, names: Seq<Seq<char>>)
    requires
        base.separator == '/',
        agreed_parts(base.shown) == Some(base.parts),
        forall|i: int| 0 <= i < names.len() ==> is_plain_name(#[trigger] names[i]),
    ensures
        agreed_parts(base.below(names).shown) == Some(base.below(names).parts),
    decreases names.len(),
{
    if names.len() == 0 {
        assert(normal_parts(names) =~= Seq::empty());
        assert(base.parts + normal_parts(names) =~= base.parts);
    } else {
        let front = names.drop_last();
        assert forall|i: int| 0 <= i < front.len() implies is_plain_name(#[trigger] front[i]) by {
            assert(names[i] == front[i]);
        }
        shown_paths_read_back(base, front);
        assert(is_plain_name(names.last()));
        lemma_name_reads_back(base.below(front).shown, names.last());
        assert(normal_parts(names) =~= normal_parts(front).push(PartView::Normal(names.last())));
        assert(base.parts + normal_parts(names) =~= (base.parts + normal_parts(front)).push(
            PartView::Normal(names.last()),
        ));
    }
}

/// Joining names one after the other is joining them together.
pub proof fn joins_add_up(base: PlaceView, first: Seq<Seq<char>>, second: Seq<Seq<char>>)
    ensures
        base.below(first).below(second) == base.below(first + second),
    decreases second.len(),
{
    assert(normal_parts(first + second) =~= normal_parts(first) + normal_parts(second));
    assert(base.parts + normal_parts(first) + normal_parts(second) =~= base.parts + normal_parts(
        first + second,
    ));
    if second.len() == 0 {
        assert(first + second =~= first);
    } else {
        joins_add_up(base, first, second.drop_last());
        assert((first + second).drop_last() =~= first + second.drop_last());
    }
}

fn separates(ch: char, separator: char) -> (answer: bool)
    ensures
        answer == parts_names(ch, separator),
{
    ch == separator || ch == '/'
}

fn push_separator(text: &mut String, separator: char)
    ensures
        final(text)@ == with_separator(old(text)@, separator),
{
    let chars = chars_of(text.as_str());
    let length = chars.len();
    if length == 0 || separates(chars[length - 1], separator) {
        return;
    }
    if separator == '\\' && length == 2 && chars[1] == ':' && (lower(chars[0]) || upper(chars[0])) {
        return;
    }
    text.push(separator);
}

fn spell(parts: &Vec<Part>, count: usize, separator: char) -> (text: String)
    requires
        count <= parts@.len(),
    ensures
        text@ == spelled(parts_view(parts@).take(count as int), separator),
{
    let ghost all = parts_view(parts@);
    let mut text = String::new();
    assert(text@ =~= spelled(all.take(0), separator));
    for i in 0..count
        invariant
            count <= parts@.len(),
            all == parts_view(parts@),
            text@ == spelled(all.take(i as int), separator),
    {
        proof {
            assert(all.take(i + 1).drop_last() =~= all.take(i as int));
            assert(all.take(i + 1).last() == parts@[i as int]@);
        }
        match &parts[i] {
            Part::Root => {
                text.push(separator);
            },
            Part::Prefix(name) => {
                push_separator(&mut text, separator);
                text.append(name.as_str());
            },
            Part::Current => {
                push_separator(&mut text, separator);
                text.append(".");
            },
            Part::Parent => {
                push_separator(&mut text, separator);
                text.append("..");
            },
            Part::Normal(name) => {
                push_separator(&mut text, separator);
                text.append(name.as_str());
            },
        }
    }
    text
}

fn verbatim(parts: &Vec<Part>, separator: char) -> (answer: bool)
    ensures
        answer == is_verbatim(parts_view(parts@), separator),
{
    if separator != '\\' || parts.len() == 0 {
        return false;
    }
    assert(parts_view(parts@)[0] == parts@[0]@);
    match &parts[0] {
        Part::Prefix(text) => text_starts_with(text.as_str(), "\\\\?\\"),
        _ => false,
    }
}

fn breaks_at(ch: char, verbatim: bool, separator: char) -> (answer: bool)
    ensures
        answer == breaks(ch, verbatim, separator),
{
    ch == separator || (!verbatim && ch == '/')
}

fn rooted(parts: &Vec<Part>) -> (answer: bool)
    ensures
        answer == has_root(parts_view(parts@)),
{
    if parts.len() == 0 {
        return false;
    }
    assert(parts_view(parts@)[0] == parts@[0]@);
    match &parts[0] {
        Part::Root => true,
        Part::Prefix(_) => {
            if parts.len() == 1 {
                return false;
            }
            assert(parts_view(parts@)[1] == parts@[1]@);
            match &parts[1] {
                Part::Root => true,
                _ => false,
            }
        },
        _ => false,
    }
}

fn find_body(chars: &Vec<char>, parts: &Vec<Part>, verbatim: bool, separator: char) -> (start: usize)
    requires
        verbatim == is_verbatim(parts_view(parts@), separator),
    ensures
        start == body_start(chars@, parts_view(parts@), separator),
        start <= chars@.len(),
{
    let mut prefix: usize = 0;
    if parts.len() > 0 {
        assert(parts_view(parts@)[0] == parts@[0]@);
        match &parts[0] {
            Part::Prefix(name) => {
                prefix = chars_of(name.as_str()).len();
            },
            _ => {},
        }
    }
    if prefix >= chars.len() {
        chars.len()
    } else if rooted(parts) {
        if breaks_at(chars[prefix], verbatim, separator) {
            prefix + 1
        } else {
            prefix
        }
    } else if chars[prefix] == '.' && (prefix + 1 == chars.len() || breaks_at(
        chars[prefix + 1],
        verbatim,
        separator,
    )) {
        prefix + 1
    } else {
        prefix
    }
}

/// Where the last piece of the first `end` characters begins.
fn find_piece(chars: &Vec<char>, end: usize, start: usize, verbatim: bool, separator: char) -> (at:
    usize)
    requires
        start <= end <= chars@.len(),
    ensures
        at == last_piece(chars@.take(end as int), start as int, verbatim, separator),
        start <= at <= end,
{
    let mut at: usize = end;
    while at > start && !breaks_at(chars[at - 1], verbatim, separator)
        invariant
            start <= at <= end <= chars@.len(),
            last_piece(chars@.take(at as int), start as int, verbatim, separator) == last_piece(
                chars@.take(end as int),
                start as int,
                verbatim,
                separator,
            ),
        decreases at,
    {
        assert(chars@.take(at as int).last() == chars@[at - 1]);
        assert(chars@.take(at as int).drop_last() =~= chars@.take(at - 1));
        at = at - 1;
    }
    proof {
        if at > start {
            assert(chars@.take(at as int).last() == chars@[at - 1]);
        }
    }
    at
}

fn cut_piece(chars: &Vec<char>, end: usize, start: usize, verbatim: bool, separator: char) -> (cut:
    usize)
    requires
        start <= end <= chars@.len(),
    ensures
        start <= cut <= end,
        start < end ==> cut < end,
        chars@.take(cut as int) == without_piece(
            chars@.take(end as int),
            start as int,
            verbatim,
            separator,
        ),
{
    let at = find_piece(chars, end, start, verbatim, separator);
    if at > start {
        assert(chars@.take(end as int).take(at - 1) =~= chars@.take(at - 1));
        at - 1
    } else {
        assert(chars@.take(end as int).take(start as int) =~= chars@.take(start as int));
        start
    }
}

/// How many of the first `end` characters are left without the pieces at their end that are no
/// components.
fn cut_blanks(chars: &Vec<char>, end: usize, start: usize, verbatim: bool, separator: char) -> (cut:
    usize)
    requires
        start <= end <= chars@.len(),
    ensures
        start <= cut <= end,
        chars@.take(cut as int) == without_blanks(
            chars@.take(end as int),
            start as int,
            verbatim,
            separator,
        ),
{
    let mut cut: usize = end;
    loop
        invariant
            start <= cut <= end <= chars@.len(),
            without_blanks(chars@.take(cut as int), start as int, verbatim, separator)
                == without_blanks(chars@.take(end as int), start as int, verbatim, separator),
        decreases cut,
    {
        if cut == start {
            return cut;
        }
        let at = find_piece(chars, cut, start, verbatim, separator);
        proof {
            let piece = chars@.take(cut as int).skip(at as int);
            reveal_strlit(".");
            if cut == at + 1 {
                assert(piece[0] == chars@[at as int]);
                if chars@[at as int] == '.' {
                    assert(piece =~= "."@);
                }
            }
            assert(is_blank(piece, verbatim) <==> cut == at || (cut == at + 1 && chars@[at as int]
                == '.' && !verbatim));
        }
        if !(cut == at || (cut == at + 1 && chars[at] == '.' && !verbatim)) {
            return cut;
        }
        cut = cut_piece(chars, cut, start, verbatim, separator);
    }
}

fn spell_parent(shown: &str, parts: &Vec<Part>, separator: char) -> (text: String)
    ensures
        text@ == parent_text(shown@, parts_view(parts@), separator),
{
    let chars = chars_of(shown);
    let verbatim = verbatim(parts, separator);
    let start = find_body(&chars, parts, verbatim, separator);
    assert(chars@.take(chars@.len() as int) =~= chars@);
    let end = cut_blanks(&chars, chars.len(), start, verbatim, separator);
    let cut = if end > start {
        let cut = cut_piece(&chars, end, start, verbatim, separator);
        cut_blanks(&chars, cut, start, verbatim, separator)
    } else if end > 0 {
        assert(chars@.take(end as int).drop_last() =~= chars@.take(end - 1));
        end - 1
    } else {
        0
    };
    let text = text_of(slice_subrange(chars.as_slice(), 0, cut));
    assert(text@ =~= chars@.take(cut as int));
    text
}

/// The text of the last `count` components of a path.
fn spell_tail(shown: &str, parts: &Vec<Part>, count: usize, separator: char) -> (text: String)
    ensures
        text@ == tail_text(shown@, parts_view(parts@), count as int, separator),
{
    if count == 0 {
        let text = String::new();
        assert(text@ =~= Seq::<char>::empty());
        return text;
    }
    let chars = chars_of(shown);
    let verbatim = verbatim(parts, separator);
    let start = find_body(&chars, parts, verbatim, separator);
    assert(chars@.take(chars@.len() as int) =~= chars@);
    let end = cut_blanks(&chars, chars.len(), start, verbatim, separator);
    let mut last: usize = end;
    let mut at: usize = find_piece(&chars, last, start, verbatim, separator);
    proof {
        if at > start {
            assert(chars@.take(end as int).take(at - 1) =~= chars@.take(at - 1));
        }
    }
    let mut left: usize = count;
    while left > 1 && at > start
        invariant
            1 <= left,
            start <= at <= last <= end <= chars@.len(),
            at == last_piece(chars@.take(last as int), start as int, verbatim, separator),
            tail_start(chars@, start as int, count as int, verbatim, separator) == if left <= 1
                || at <= start {
                at as int
            } else {
                tail_start(
                    chars@.take(at - 1),
                    start as int,
                    left - 1,
                    verbatim,
                    separator,
                )
            },
        decreases left,
    {
        assert(start <= at - 1);
        last = cut_blanks(&chars, at - 1, start, verbatim, separator);
        at = find_piece(&chars, last, start, verbatim, separator);
        left = left - 1;
        proof {
            if at > start {
                assert(chars@.take(last as int).take(at - 1) =~= chars@.take(at - 1));
            }
        }
    }
    let text = text_of(slice_subrange(chars.as_slice(), at, end));
    assert(text@ =~= chars@.take(end as int).skip(at as int));
    text
}

impl Place {
    /// The path that a text spells on this machine.
    pub fn read(text: &str, separator: char) -> (place: Place)
        ensures
            place.shown@ == text@,
            place.separator == separator,
            agreed_parts(text@) matches Some(agreed) ==> place@.parts == agreed,
    {
        Place { shown: text.to_owned(), parts: path_parts(text), separator }
    }

    /// A copy of the path.
    pub fn copy(&self) -> (place: Place)
        ensures
            place@ == self@,
    {
        let parts = copy_parts(&self.parts, 0);
        assert(parts_view(self.parts@).skip(0) =~= parts_view(self.parts@));
        Place { shown: self.shown.clone(), parts, separator: self.separator }
    }

    /// The path of names below this one.
    pub fn below(&self, names: &Vec<String>) -> (place: Place)
        ensures
            place@ == self@.below(texts_view(names@)),
    {
        let mut parts = copy_parts(&self.parts, 0);
        let mut shown = self.shown.clone();
        let ghost texts = texts_view(names@);
        proof {
            assert(self@.parts.skip(0) =~= self@.parts);
            assert(texts.take(0) =~= Seq::<Seq<char>>::empty());
            assert(self@.parts + normal_parts(texts.take(0)) =~= self@.parts);
        }
        for i in 0..names.len()
            invariant
                texts == texts_view(names@),
                shown@ == joined_text(self@.shown, texts.take(i as int), self.separator),
                parts_view(parts@) == self@.parts + normal_parts(texts.take(i as int)),
        {
            let name = names[i].clone();
            push_separator(&mut shown, self.separator);
            shown.append(name.as_str());
            let ghost before = parts@;
            parts.push(Part::Normal(name));
            proof {
                let some = texts.take(i as int);
                let more = texts.take(i + 1);
                assert(more.drop_last() =~= some);
                assert(more.last() == names@[i as int]@);
                assert(parts_view(parts@) =~= parts_view(before).push(
                    PartView::Normal(texts[i as int]),
                ));
                assert(normal_parts(more) =~= normal_parts(some).push(
                    PartView::Normal(texts[i as int]),
                ));
                assert(parts_view(parts@) =~= self@.parts + normal_parts(more));
            }
        }
        assert(texts.take(names@.len() as int) =~= texts);
        if names.len() > 0 && verbatim(&self.parts, self.separator) {
            assert(parts_view(parts@).take(parts@.len() as int) =~= parts_view(parts@));
            shown = spell(&parts, parts.len(), self.separator);
        }
        Place { shown, parts, separator: self.separator }
    }

    /// The path of a text below this one, whose components are names.
    pub fn joined(&self, text: &str, names: &Vec<String>) -> (place: Place)
        ensures
            place@ == self@.joined(text@, texts_view(names@)),
    {
        let parts = self.below(names).parts;
        let shown = if chars_of(text).len() > 0 && verbatim(&self.parts, self.separator) {
            assert(parts_view(parts@).take(parts@.len() as int) =~= parts_view(parts@));
            spell(&parts, parts.len(), self.separator)
        } else {
            let mut shown = self.shown.clone();
            push_separator(&mut shown, self.separator);
            shown.append(text);
            shown
        };
        Place { shown, parts, separator: self.separator }
    }

    /// The text of the components below `root`, which this path lies within.
    pub fn text_below(&self, root: &Place) -> (text: String)
        requires
            root@.parts.len() <= self@.parts.len(),
        ensures
            text@ == self@.text_below(root@),
    {
        assert(self@.parts.len() == self.parts@.len() && root@.parts.len() == root.parts@.len());
        spell_tail(
            self.shown.as_str(),
            &self.parts,
            self.parts.len() - root.parts.len(),
            self.separator,
        )
    }

    /// The path of one name below this one.
    pub fn child(&self, name: &str) -> (place: Place)
        ensures
            place@ == self@.below(seq![name@]),
    {
        let mut names: Vec<String> = Vec::new();
        names.push(name.to_owned());
        assert(texts_view(names@) =~= seq![name@]);
        self.below(&names)
    }

    /// The path of the directory that holds this one.
    pub fn parent(&self) -> (parent: Option<Place>)
        ensures
            match parent {
                Some(place) => self@.parent() == Some(place@),
                None => self@.parent() is None,
            },
    {
        let length = self.parts.len();
        if length == 0 {
            return None;
        }
        assert(self@.parts.last() == self.parts@[length - 1]@);
        match &self.parts[length - 1] {
            Part::Root => {
                return None;
            },
            Part::Prefix(_) => {
                return None;
            },
            _ => {},
        }
        let mut parts = copy_parts(&self.parts, 0);
        let ghost copied = parts@;
        assert(parts_view(self.parts@).skip(0) =~= parts_view(self.parts@));
        parts.pop();
        assert(parts_view(parts@) =~= parts_view(copied).drop_last());
        let shown = spell_parent(self.shown.as_str(), &self.parts, self.separator);
        Some(Place { shown, parts, separator: self.separator })
    }

    /// The name at the end of the path.
    pub fn file_name(&self) -> (name: Option<&String>)
        ensures
            match name {
                Some(name) => self@.file_name() == Some(name@),
                None => self@.file_name() is None,
            },
    {
        let length = self.parts.len();
        if length == 0 {
            return None;
        }
        assert(self@.parts.last() == self.parts@[length - 1]@);
        match &self.parts[length - 1] {
            Part::Normal(name) => Some(name),
            _ => None,
        }
    }

    /// Whether this path lies at or below another.
    pub fn starts_with(&self, root: &Place) -> (answer: bool)
        ensures
            answer == self@.within(root@),
    {
        parts_start_with(&self.parts, &root.parts)
    }

    /// Whether two paths have the same components.
    pub fn same(&self, other: &Place) -> (answer: bool)
        ensures
            answer == (self@.parts == other@.parts),
    {
        let answer = self.parts.len() == other.parts.len() && parts_start_with(
            &self.parts,
            &other.parts,
        );
        proof {
            assert(self@.parts.take(self@.parts.len() as int) =~= self@.parts);
        }
        answer
    }

    /// The components below `root`, where this path lies within it.
    pub fn strip_prefix(&self, root: &Place) -> (rest: Option<Vec<Part>>)
        ensures
            match rest {
                Some(parts) => self@.within(root@) && parts_view(parts@) == self@.relative_to(
                    root@,
                ),
                None => !self@.within(root@),
            },
    {
        if self.starts_with(root) {
            Some(copy_parts(&self.parts, root.parts.len()))
        } else {
            None
        }
    }
}

/// A path lies within another if and only if it is that and something behind it, which is then what
/// it is away from it.
pub proof fn paths_within_go_on_behind(root: PlaceView, path: PlaceView, rest: Seq<PartView>)
    ensures
        path.parts == root.parts + rest ==> path.within(root) && path.relative_to(root) == rest,
        path.within(root) ==> path.parts == root.parts + path.relative_to(root),
{
    if path.parts == root.parts + rest {
        assert(path.parts.take(root.parts.len() as int) =~= root.parts);
        assert(path.parts.skip(root.parts.len() as int) =~= rest);
    }
    if path.within(root) {
        assert(path.parts =~= root.parts + path.relative_to(root));
    }
}

/// The name at the end of a path is its last component, and the directory that holds it all before
/// that.
pub proof fn paths_end_with_their_name(path: PlaceView, front: Seq<PartView>, name: Seq<char>)
    requires
        path.parts == front.push(PartView::Normal(name)),
    ensures
        path.file_name() == Some(name),
        path.parent() matches Some(parent) && parent.parts == front,
{
    assert(path.parts.drop_last() =~= front);
}

/// Where slashes part names, a name is written behind a path with one slash between them, unless
/// the path is empty or ends with one.
pub proof fn slashes_part_names(base: PlaceView, name: Seq<char>)
    requires
        base.separator == '/',
    ensures
        base.below(seq![name]).shown == if base.shown.len() == 0 || base.shown.last() == '/' {
            base.shown + name
        } else {
            base.shown.push('/') + name
        },
        base.joined(name, seq![name]).shown == base.below(seq![name]).shown,
        base.below(seq![name]).parts == base.parts.push(PartView::Normal(name)),
        base.below(seq![name]).separator == '/',
{
    assert(seq![name].drop_last() =~= Seq::<Seq<char>>::empty());
    assert(joined_text(base.shown, Seq::empty(), '/') == base.shown);
    assert(normal_parts(seq![name]) =~= seq![PartView::Normal(name)]);
    assert(base.below(seq![name]).parts =~= base.parts.push(PartView::Normal(name)));
}

/// Where backslashes part names, a name is written behind a path with one backslash between them,
/// unless the path is empty, a drive alone, or ends with a backslash or a slash.
pub proof fn backslashes_part_names(base: PlaceView, name: Seq<char>)
    requires
        base.separator == '\\',
        !is_verbatim(base.parts, base.separator),
    ensures
        ({
            let shown = base.shown;
            let drive = shown.len() == 2 && shown[1] as int == 58 && (65 <= shown[0] as int <= 90
                || 97 <= shown[0] as int <= 122);
            base.below(seq![name]).shown == if shown.len() == 0 || drive || shown.last() == '/'
                || shown.last() == '\\' {
                shown + name
            } else {
                shown.push('\\') + name
            }
        }),
{
    assert(seq![name].drop_last() =~= Seq::<Seq<char>>::empty());
    assert(joined_text(base.shown, Seq::empty(), base.separator) == base.shown);
}

/// The text of a name below a path is that name.
pub proof fn names_are_read_below_their_directory(base: PlaceView, name: Seq<char>)
    requires
        base.separator == '/',
        base.parts.len() > 0,
        !(base.parts[0] is Prefix),
        base.shown.len() > 0,
        is_step_name(name),
    ensures
        base.below(seq![name]).text_below(base) == name,
{
    let child = base.below(seq![name]);
    slashes_part_names(base, name);
    let front = with_separator(base.shown, '/');
    let start = body_start(child.shown, child.parts, '/');
    assert(child.parts[0] == base.parts[0]);
    assert(child.shown =~= front + name);
    lemma_last_name(front, name, start, '/');
    assert(child.shown.skip(front.len() as int) =~= name);
    assert(child.parts.len() - base.parts.len() == 1);
}

} // verus!
