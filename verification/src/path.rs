//! File paths: their components, by which two paths are told apart, and the way
//! they are written.

use vstd::prelude::*;
use vstd::string::*;
use vstd::utf8::*;
use crate::outside::lossy;
use crate::outside::lossy_text;
use crate::text::chars_of;
use crate::text::pieces;
use crate::text::split;
use crate::text::text_of;
use crate::text::texts;

verus! {

/// One component of a path. Names are kept in the bytes that the platform
/// encodes them in, so that a name that is not UTF-8 stays what it is.
#[derive(Debug, PartialEq, Eq)]
pub enum Component {
    /// A drive or a share in front of the root.
    Prefix(Vec<u8>),
    /// The root directory.
    Root,
    /// The current directory, in front of a relative path.
    Current,
    /// The directory above.
    Parent,
    /// A name.
    Normal(Vec<u8>),
}

/// What a component holds.
pub enum Part {
    Prefix(Seq<u8>),
    Root,
    Current,
    Parent,
    Normal(Seq<u8>),
}

impl View for Component {
    type V = Part;

    open spec fn view(&self) -> Part {
        match self {
            Component::Prefix(b) => Part::Prefix(b@),
            Component::Root => Part::Root,
            Component::Current => Part::Current,
            Component::Parent => Part::Parent,
            Component::Normal(b) => Part::Normal(b@),
        }
    }
}

/// A path: its components, in order, and the bytes that write it. A path that was
/// given is written as it was given, and may hold more separators than it needs.
/// What it leads to rests on its components alone.
#[derive(Debug)]
pub struct FilePath {
    pub components: Vec<Component>,
    pub text: Vec<u8>,
}

/// What a list of components holds.
pub open spec fn parts_of(components: Seq<Component>) -> Seq<Part> {
    Seq::new(components.len(), |i: int| components[i]@)
}

impl View for FilePath {
    type V = Seq<Part>;

    open spec fn view(&self) -> Seq<Part> {
        parts_of(self.components@)
    }
}

/// What a path holds, and how it is written.
#[verifier::ext_equal]
pub struct PathView {
    pub parts: Seq<Part>,
    pub text: Seq<u8>,
}

impl FilePath {
    /// What the path holds, and how it is written.
    pub open spec fn spelled(&self) -> PathView {
        PathView { parts: self@, text: self.text@ }
    }

    /// The path is written with one separator between components, and no more.
    pub open spec fn is_plain(&self) -> bool {
        self.text@ == bytes_of(self@)
    }
}

/// The path of some components, written plainly.
pub open spec fn plain(parts: Seq<Part>) -> PathView {
    PathView { parts, text: bytes_of(parts) }
}

/// What each of a list of paths holds, and how it is written.
pub open spec fn spelled_view(list: Seq<FilePath>) -> Seq<PathView> {
    Seq::new(list.len(), |i: int| list[i].spelled())
}

/// What each of a list of paths holds.
pub open spec fn paths_view(list: Seq<FilePath>) -> Seq<Seq<Part>> {
    Seq::new(list.len(), |i: int| list[i]@)
}

/// What a path that may be absent holds.
pub open spec fn opt_path(value: Option<FilePath>) -> Option<Seq<Part>> {
    match value {
        Some(p) => Some(p@),
        None => None,
    }
}

/// A component above which there is no directory to climb to.
pub open spec fn is_anchor(part: Part) -> bool {
    part is Prefix || part is Root
}

/// The path without its last component; none where the path is empty or ends
/// in a root or a prefix.
pub open spec fn parent_of(p: Seq<Part>) -> Option<Seq<Part>> {
    if p.len() == 0 || is_anchor(p.last()) {
        None
    } else {
        Some(p.drop_last())
    }
}

/// The last component, where it is a name.
pub open spec fn name_of(p: Seq<Part>) -> Option<Seq<u8>> {
    if p.len() > 0 && p.last() is Normal {
        Some(p.last()->Normal_0)
    } else {
        None
    }
}

/// Where the extension of a name begins: at its last dot, unless that is the
/// first character.
pub open spec fn extension_dot(name: Seq<u8>) -> Option<int> {
    if name.contains(46u8) && name.index_of_last(46u8)->0 > 0 {
        name.index_of_last(46u8)
    } else {
        None
    }
}

/// The name without its extension.
pub open spec fn name_stem(name: Seq<u8>) -> Seq<u8> {
    match extension_dot(name) {
        Some(i) => name.take(i),
        None => name,
    }
}

/// The extension of a name, without the dot.
pub open spec fn name_extension(name: Seq<u8>) -> Option<Seq<u8>> {
    match extension_dot(name) {
        Some(i) => Some(name.skip(i + 1)),
        None => None,
    }
}

/// The last component without its extension, where it is a name.
pub open spec fn stem_of(p: Seq<Part>) -> Option<Seq<u8>> {
    match name_of(p) {
        Some(name) => Some(name_stem(name)),
        None => None,
    }
}

/// The extension of the last component, where it is a name that has one.
pub open spec fn extension_of(p: Seq<Part>) -> Option<Seq<u8>> {
    match name_of(p) {
        Some(name) => name_extension(name),
        None => None,
    }
}

/// The path `p` with one more name.
pub open spec fn child_of(p: Seq<Part>, name: Seq<char>) -> Seq<Part> {
    p.push(Part::Normal(encode_utf8(name)))
}

/// The path `q` as seen from `p`: `q` itself where it has a prefix, `q` on the
/// prefix of `p` where it starts at the root, and else `p` followed by `q`.
pub open spec fn join_of(p: Seq<Part>, q: Seq<Part>) -> Seq<Part> {
    if q.len() > 0 && q[0] is Prefix {
        q
    } else if q.len() > 0 && q[0] is Root {
        if p.len() > 0 && p[0] is Prefix {
            seq![p[0]] + q
        } else {
            q
        }
    } else if q.len() > 0 && q[0] is Current && p.len() > 0 {
        p + q.skip(1)
    } else {
        p + q
    }
}

/// The components that the names between separators stand for. A name that is
/// empty is none, and a dot is one only at the start of a relative path, or where
/// names are taken literally.
pub open spec fn named_parts(names: Seq<Seq<char>>, relative: bool, literal: bool) -> Seq<Part>
    decreases names.len(),
{
    if names.len() == 0 {
        seq![]
    } else {
        let before = named_parts(names.drop_last(), relative, literal);
        let name = names.last();
        if name.len() == 0 {
            before
        } else if name == "."@ {
            if literal || (relative && names.len() == 1) {
                before.push(Part::Current)
            } else {
                before
            }
        } else if name == ".."@ {
            before.push(Part::Parent)
        } else {
            before.push(Part::Normal(encode_utf8(name)))
        }
    }
}

/// The path that a text with slashes between the names writes.
pub open spec fn path_of(s: Seq<char>) -> Seq<Part> {
    if s.len() > 0 && s[0] == '/' {
        seq![Part::Root] + named_parts(pieces(s, '/'), false, false)
    } else {
        named_parts(pieces(s, '/'), true, false)
    }
}

// Paths of Windows -----------------------------------------------------------

/// A character between names: both slashes, or the backward one only where names
/// are taken literally.
pub open spec fn is_separator(c: char, literal: bool) -> bool {
    c == '\\' || (c == '/' && !literal)
}

/// The first place at or after `from` of a separator; the end where there is none.
pub open spec fn separator_from(s: Seq<char>, from: int, literal: bool) -> int
    decreases s.len() - from,
{
    if from < 0 || from >= s.len() {
        s.len() as int
    } else if is_separator(s[from], literal) {
        from
    } else {
        separator_from(s, from + 1, literal)
    }
}

pub open spec fn is_drive_letter(c: char) -> bool {
    'a' <= c <= 'z' || 'A' <= c <= 'Z'
}

/// A drive stands at a place.
pub open spec fn drive_at(s: Seq<char>, at: int) -> bool {
    0 <= at && at + 1 < s.len() && is_drive_letter(s[at]) && s[at + 1] == ':'
}

/// The start of a path in which names are taken literally.
pub open spec fn is_literal(s: Seq<char>) -> bool {
    s.len() >= 4 && s[0] == '\\' && s[1] == '\\' && s[2] == '?' && s[3] == '\\'
}

/// Two names from a place on, with a separator between them, up to their end;
/// only the first where the second is empty.
pub open spec fn share_end(s: Seq<char>, from: int, literal: bool) -> int {
    let server = separator_from(s, from, literal);
    let share = separator_from(s, server + 1, literal);
    if server < s.len() && share > server + 1 {
        share
    } else {
        server
    }
}

/// A share of a server behind a literal start.
pub open spec fn is_literal_share(s: Seq<char>) -> bool {
    s.len() >= 8 && s[4] == 'U' && s[5] == 'N' && s[6] == 'C' && is_separator(s[7], false)
}

/// Two separators at the start.
pub open spec fn is_double(s: Seq<char>) -> bool {
    s.len() >= 2 && is_separator(s[0], false) && is_separator(s[1], false)
}

/// How many characters the prefix of a path takes: a drive, a share of a server, a
/// device, or one of these behind a literal start; zero where there is none.
pub open spec fn prefix_len(s: Seq<char>) -> int {
    if is_literal(s) {
        if is_literal_share(s) {
            share_end(s, 8, true)
        } else if drive_at(s, 4) && (s.len() == 6 || s[6] == '\\') {
            6
        } else {
            separator_from(s, 4, true)
        }
    } else if is_double(s) {
        let server = separator_from(s, 2, false);
        if s.len() >= 4 && s[2] == '.' && is_separator(s[3], false) {
            separator_from(s, 4, false)
        } else if server > 2 && share_end(s, 2, false) > server {
            share_end(s, 2, false)
        } else {
            0
        }
    } else if drive_at(s, 0) {
        2
    } else {
        0
    }
}

/// The character with which a prefix is told from others: separators are the same
/// where names are not taken literally.
pub open spec fn prefix_char(c: char, literal: bool) -> char {
    if c == '/' && !literal {
        '\\'
    } else {
        c
    }
}

/// A drive letter in capitals.
pub open spec fn drive_letter(c: char) -> char {
    if 'a' <= c <= 'z' {
        (c as u32 - 32) as char
    } else {
        c
    }
}

/// The text with which a prefix is told from others.
pub open spec fn prefix_text(s: Seq<char>) -> Seq<char> {
    let n = prefix_len(s);
    let literal = is_literal(s);
    Seq::new(
        n as nat,
        |i: int|
            if (n == 2 && i == 0) || (n == 6 && i == 4 && literal && drive_at(s, 4)) {
                drive_letter(s[i])
            } else {
                prefix_char(s[i], literal)
            },
    )
}

/// The names of a path of Windows, with one kind of separator between them.
pub open spec fn evened(s: Seq<char>, literal: bool) -> Seq<char> {
    Seq::new(s.len(), |i: int| prefix_char(s[i], literal))
}

/// The path that a text writes where names are those of Windows: a prefix or none,
/// the root where a separator follows or the prefix implies it, and the names.
pub open spec fn windows_path_of(s: Seq<char>) -> Seq<Part> {
    let n = prefix_len(s);
    let literal = is_literal(s);
    let rest = s.skip(n);
    let rooted = rest.len() > 0 && is_separator(rest[0], literal);
    let implied = n > 2 && !literal;
    let prefix = if n > 0 {
        seq![Part::Prefix(encode_utf8(prefix_text(s)))]
    } else {
        seq![]
    };
    let root = if rooted || implied {
        seq![Part::Root]
    } else {
        seq![]
    };
    prefix + root + named_parts(
        pieces(evened(rest, literal), '\\'),
        n == 0 && !rooted,
        literal,
    )
}

// Writing --------------------------------------------------------------------

/// The separator with which a path is written: that of Windows where it has a
/// prefix.
pub open spec fn separator_of(p: Seq<Part>) -> u8 {
    if p.len() > 0 && p[0] is Prefix {
        92
    } else {
        47
    }
}

/// The bytes of a path with a separator behind them, where something follows.
pub open spec fn slashed(bytes: Seq<u8>, separator: u8) -> Seq<u8> {
    if bytes.len() == 0 || bytes.last() == separator {
        bytes
    } else {
        bytes.push(separator)
    }
}

/// The bytes of a component, apart from the root.
pub open spec fn part_bytes(part: Part) -> Seq<u8> {
    match part {
        Part::Prefix(b) => b,
        Part::Root => seq![],
        Part::Current => seq![46u8],
        Part::Parent => seq![46u8, 46u8],
        Part::Normal(b) => b,
    }
}

/// The bytes that write a path plainly: its components with separators between
/// them, but for a drive, which a name follows directly.
pub open spec fn bytes_of(p: Seq<Part>) -> Seq<u8>
    decreases p.len(),
{
    if p.len() == 0 {
        seq![]
    } else if p.last() is Root {
        bytes_of(p.drop_last()).push(separator_of(p))
    } else if p.len() == 2 && p[0] is Prefix {
        bytes_of(p.drop_last()) + part_bytes(p.last())
    } else {
        slashed(bytes_of(p.drop_last()), separator_of(p)) + part_bytes(p.last())
    }
}

// ---------------------------------------------------------------------------

pub fn clone_bytes(b: &Vec<u8>) -> (r: Vec<u8>)
    ensures
        r@ == b@,
{
    let r = b.clone();
    assert(r@ =~= b@);
    r
}

pub fn bytes_eq(a: &Vec<u8>, b: &Vec<u8>) -> (r: bool)
    ensures
        r == (a@ == b@),
{
    if a.len() != b.len() {
        return false;
    }
    let mut i: usize = 0;
    while i < a.len()
        invariant
            a@.len() == b@.len(),
            i <= a@.len(),
            forall|k: int| 0 <= k < i ==> a@[k] == b@[k],
        decreases a@.len() - i,
    {
        if a[i] != b[i] {
            return false;
        }
        i = i + 1;
    }
    assert(a@ =~= b@);
    true
}

impl Clone for Component {
    fn clone(&self) -> (r: Self)
        ensures
            r@ == self@,
    {
        match self {
            Component::Prefix(b) => Component::Prefix(clone_bytes(b)),
            Component::Root => Component::Root,
            Component::Current => Component::Current,
            Component::Parent => Component::Parent,
            Component::Normal(b) => Component::Normal(clone_bytes(b)),
        }
    }
}

impl Component {
    /// Whether the two components hold the same.
    pub fn same(&self, other: &Component) -> (r: bool)
        ensures
            r == (self@ == other@),
    {
        match (self, other) {
            (Component::Prefix(a), Component::Prefix(b)) => bytes_eq(a, b),
            (Component::Root, Component::Root) => true,
            (Component::Current, Component::Current) => true,
            (Component::Parent, Component::Parent) => true,
            (Component::Normal(a), Component::Normal(b)) => bytes_eq(a, b),
            _ => false,
        }
    }
}

/// The components of a list.
fn clone_components(list: &Vec<Component>, from: usize, to: usize) -> (r: Vec<Component>)
    requires
        from <= to <= list@.len(),
    ensures
        parts_of(r@) == parts_of(list@).subrange(from as int, to as int),
{
    let mut r: Vec<Component> = Vec::new();
    let mut i: usize = from;
    while i < to
        invariant
            from <= i <= to <= list@.len(),
            r@.len() == i - from,
            forall|k: int| 0 <= k < r@.len() ==> (#[trigger] r@[k])@ == list@[k + from]@,
        decreases to - i,
    {
        r.push(list[i].clone());
        i = i + 1;
    }
    assert(parts_of(r@) =~= parts_of(list@).subrange(from as int, to as int));
    r
}

impl Clone for FilePath {
    fn clone(&self) -> (r: Self)
        ensures
            r@ == self@,
            r.text@ == self.text@,
            r.spelled() == self.spelled(),
    {
        let components: Vec<Component> = clone_components(
            &self.components,
            0,
            self.components.len(),
        );
        assert(self@.subrange(0, self@.len() as int) =~= self@);
        FilePath { components, text: clone_bytes(&self.text) }
    }
}

impl PartialEq for FilePath {
    fn eq(&self, other: &FilePath) -> (r: bool) {
        self.same(other)
    }
}

impl vstd::std_specs::cmp::PartialEqSpecImpl for FilePath {
    open spec fn obeys_eq_spec() -> bool {
        true
    }

    open spec fn eq_spec(&self, other: &FilePath) -> bool {
        self@ == other@
    }
}

/// The bytes that write components plainly.
fn write_components(components: &Vec<Component>) -> (r: Vec<u8>)
    ensures
        r@ == bytes_of(parts_of(components@)),
{
    let ghost all = parts_of(components@);
    let prefixed: bool = components.len() > 0 && match &components[0] {
        Component::Prefix(_) => true,
        _ => false,
    };
    let separator: u8 = if prefixed {
        92
    } else {
        47
    };
    let mut r: Vec<u8> = Vec::new();
    let mut i: usize = 0;
    assert(all.take(0) =~= seq![]);
    while i < components.len()
        invariant
            i <= components@.len(),
            all == parts_of(components@),
            prefixed == (components@.len() > 0 && all[0] is Prefix),
            separator == separator_of(all),
            r@ == bytes_of(all.take(i as int)),
        decreases components@.len() - i,
    {
        assert(all.take(i + 1).drop_last() =~= all.take(i as int));
        assert(all.take(i + 1).last() == all[i as int]);
        assert(separator_of(all.take(i + 1)) == separator);
        let ghost before = r@;
        match &components[i] {
            Component::Root => {
                r.push(separator);
            },
            part => {
                if prefixed && i == 1 {
                    assert(r@ == before);
                } else {
                    let n: usize = r.len();
                    if n > 0 && r[n - 1] != separator {
                        r.push(separator);
                    }
                    assert(r@ =~= slashed(before, separator));
                }
                let ghost start = r@;
                match part {
                    Component::Prefix(b) => {
                        let mut more: Vec<u8> = clone_bytes(b);
                        r.append(&mut more);
                    },
                    Component::Normal(b) => {
                        let mut more: Vec<u8> = clone_bytes(b);
                        r.append(&mut more);
                    },
                    Component::Current => {
                        r.push(46);
                    },
                    Component::Parent => {
                        r.push(46);
                        r.push(46);
                    },
                    Component::Root => {},
                }
                assert(r@ =~= start + part_bytes(all[i as int]));
            },
        }
        i = i + 1;
    }
    assert(all.take(i as int) =~= all);
    r
}

impl FilePath {
    /// The path of some components, written plainly.
    pub fn of(components: Vec<Component>) -> (r: FilePath)
        ensures
            r@ == parts_of(components@),
            r.is_plain(),
    {
        let text: Vec<u8> = write_components(&components);
        FilePath { components, text }
    }

    /// The path with no components.
    pub fn empty() -> (r: FilePath)
        ensures
            r@ == Seq::<Part>::empty(),
            r.is_plain(),
    {
        let none: Vec<Component> = Vec::new();
        assert(parts_of(none@) =~= Seq::<Part>::empty());
        FilePath::of(none)
    }

    /// The current directory.
    pub fn current() -> (r: FilePath)
        ensures
            r@ == seq![Part::Current],
            r.is_plain(),
    {
        let mut here: Vec<Component> = Vec::new();
        here.push(Component::Current);
        assert(parts_of(here@) =~= seq![Part::Current]);
        FilePath::of(here)
    }

    /// Whether the two paths have the same components.
    pub fn same(&self, other: &FilePath) -> (r: bool)
        ensures
            r == (self@ == other@),
    {
        if self.components.len() != other.components.len() {
            return false;
        }
        let r = self.starts_with(other);
        assert(other@.is_prefix_of(self@) <==> self@ =~= other@);
        r
    }

    /// Whether the components of `base` are the first ones of the path.
    pub fn starts_with(&self, base: &FilePath) -> (r: bool)
        ensures
            r == base@.is_prefix_of(self@),
    {
        if base.components.len() > self.components.len() {
            return false;
        }
        let mut i: usize = 0;
        while i < base.components.len()
            invariant
                i <= base@.len() <= self@.len(),
                forall|k: int| 0 <= k < i ==> base@[k] == self@[k],
            decreases base@.len() - i,
        {
            if !self.components[i].same(&base.components[i]) {
                assert(base@[i as int] != self@[i as int]);
                return false;
            }
            i = i + 1;
        }
        assert(base@ =~= self@.subrange(0, base@.len() as int));
        true
    }

    /// What follows `base` in the path, where the path starts with `base`.
    pub fn strip_prefix(&self, base: &FilePath) -> (r: Option<FilePath>)
        ensures
            match r {
                Some(rest) => base@.is_prefix_of(self@) && rest@ == self@.skip(
                    base@.len() as int,
                ) && rest.is_plain(),
                None => !base@.is_prefix_of(self@),
            },
    {
        if !self.starts_with(base) {
            return None;
        }
        let n: usize = self.components.len();
        let components: Vec<Component> = clone_components(
            &self.components,
            base.components.len(),
            n,
        );
        assert(parts_of(components@) =~= self@.skip(base@.len() as int));
        Some(FilePath::of(components))
    }

    /// The path without its last component.
    pub fn parent(&self) -> (r: Option<FilePath>)
        ensures
            opt_path(r) == parent_of(self@),
            r is Some ==> r->0.is_plain(),
    {
        let n: usize = self.components.len();
        if n == 0 {
            return None;
        }
        match &self.components[n - 1] {
            Component::Prefix(_) => None,
            Component::Root => None,
            _ => {
                let components: Vec<Component> = clone_components(&self.components, 0, n - 1);
                assert(parts_of(components@) =~= self@.drop_last());
                Some(FilePath::of(components))
            },
        }
    }

    /// The last component, where it is a name.
    pub fn file_name(&self) -> (r: Option<Vec<u8>>)
        ensures
            match r {
                Some(name) => name_of(self@) == Some(name@),
                None => name_of(self@) is None,
            },
    {
        let n: usize = self.components.len();
        if n == 0 {
            return None;
        }
        match &self.components[n - 1] {
            Component::Normal(name) => Some(clone_bytes(name)),
            _ => None,
        }
    }

    /// The last component without its extension, where it is a name.
    pub fn file_stem(&self) -> (r: Option<Vec<u8>>)
        ensures
            match r {
                Some(stem) => stem_of(self@) == Some(stem@),
                None => stem_of(self@) is None,
            },
    {
        match self.file_name() {
            Some(name) => match dot_of(&name) {
                Some(i) => Some(byte_range(&name, 0, i)),
                None => Some(name),
            },
            None => None,
        }
    }

    /// The extension of the last component, where it is a name that has one.
    pub fn extension(&self) -> (r: Option<Vec<u8>>)
        ensures
            match r {
                Some(ext) => extension_of(self@) == Some(ext@),
                None => extension_of(self@) is None,
            },
    {
        match self.file_name() {
            Some(name) => match dot_of(&name) {
                Some(i) => {
                    let end: usize = name.len();
                    let r = byte_range(&name, i + 1, end);
                    assert(r@ =~= name@.skip(i + 1));
                    Some(r)
                },
                None => None,
            },
            None => None,
        }
    }

    /// The path with one more name.
    pub fn child(&self, name: &str) -> (r: FilePath)
        ensures
            r@ == child_of(self@, name@),
            r.is_plain(),
    {
        let n: usize = self.components.len();
        let mut components: Vec<Component> = clone_components(&self.components, 0, n);
        let ghost before = components@;
        components.push(Component::Normal(name.as_bytes_vec()));
        assert(parts_of(before) =~= self@);
        assert(parts_of(components@) =~= parts_of(before).push(Part::Normal(encode_utf8(name@))));
        FilePath::of(components)
    }

    /// The path `other` as seen from this one.
    pub fn join(&self, other: &FilePath) -> (r: FilePath)
        ensures
            r@ == join_of(self@, other@),
            r.is_plain(),
    {
        let mut from: usize = 0;
        let mut kept: usize = self.components.len();
        if other.components.len() > 0 {
            match &other.components[0] {
                Component::Prefix(_) => {
                    kept = 0;
                },
                Component::Root => {
                    kept = 0;
                    if self.components.len() > 0 {
                        match &self.components[0] {
                            Component::Prefix(_) => {
                                kept = 1;
                            },
                            _ => {},
                        }
                    }
                },
                Component::Current => {
                    if self.components.len() > 0 {
                        from = 1;
                    }
                },
                _ => {},
            }
        }
        let mut components: Vec<Component> = clone_components(&self.components, 0, kept);
        let n: usize = other.components.len();
        let mut more: Vec<Component> = clone_components(&other.components, from, n);
        let ghost first = components@;
        let ghost second = more@;
        components.append(&mut more);
        assert(parts_of(components@) =~= parts_of(first) + parts_of(second));
        assert(parts_of(components@) =~= join_of(self@, other@));
        FilePath::of(components)
    }

    /// The path as it is written; what is not UTF-8 is replaced.
    pub fn to_text(&self) -> (r: String)
        ensures
            r@ == lossy_text(self.text@),
    {
        lossy(&self.text)
    }

    /// The path that a text with slashes between the names writes.
    pub fn parse(s: &str) -> (r: FilePath)
        ensures
            r@ == path_of(s@),
            r.text@ == encode_utf8(s@),
    {
        let rooted: bool = !s.is_empty() && s.get_char(0) == '/';
        let names: Vec<String> = split(s, '/');
        let mut components: Vec<Component> = Vec::new();
        if rooted {
            components.push(Component::Root);
        }
        let ghost root = parts_of(components@);
        assert(root =~= if rooted {
            seq![Part::Root]
        } else {
            seq![]
        });
        push_names(&mut components, &names, !rooted, false);
        assert(!rooted ==> root + named_parts(texts(names@), true, false) =~= named_parts(
            texts(names@),
            true,
            false,
        ));
        FilePath { components, text: s.as_bytes_vec() }
    }

    /// The path that a text writes where names are those of Windows.
    pub fn parse_windows(s: &str) -> (r: FilePath)
        ensures
            r@ == windows_path_of(s@),
            r.text@ == encode_utf8(s@),
    {
        let chars: Vec<char> = chars_of(s);
        let literal: bool = starts_literally(&chars);
        let n: usize = prefix_length(&chars);
        let count: usize = chars.len();
        let rooted: bool = n < count && (chars[n] == '\\' || (chars[n] == '/' && !literal));
        let mut components: Vec<Component> = Vec::new();
        if n > 0 {
            let prefix: String = prefix_string(&chars, n);
            components.push(Component::Prefix(prefix.as_str().as_bytes_vec()));
        }
        if rooted || (n > 2 && !literal) {
            components.push(Component::Root);
        }
        let ghost start = parts_of(components@);
        let ghost rest = s@.skip(n as int);
        let ghost prefix = if n > 0 {
            seq![Part::Prefix(encode_utf8(prefix_text(s@)))]
        } else {
            seq![]
        };
        let ghost root = if rooted || (n > 2 && !literal) {
            seq![Part::Root]
        } else {
            seq![]
        };
        assert(start =~= prefix + root);
        let names: Vec<String> = even_names(&chars, n, literal);
        push_names(&mut components, &names, n == 0 && !rooted, literal);
        FilePath { components, text: s.as_bytes_vec() }
    }
}

/// Adds the components that names stand for.
fn push_names(components: &mut Vec<Component>, names: &Vec<String>, relative: bool, literal: bool)
    ensures
        parts_of(final(components)@) == parts_of(old(components)@) + named_parts(
            texts(names@),
            relative,
            literal,
        ),
{
    let ghost root = parts_of(components@);
    let mut i: usize = 0;
    assert(texts(names@).take(0) =~= seq![]);
    assert(root + named_parts(texts(names@).take(0), relative, literal) =~= root);
    while i < names.len()
        invariant
            i <= names@.len(),
            parts_of(components@) == root + named_parts(
                texts(names@).take(i as int),
                relative,
                literal,
            ),
        decreases names@.len() - i,
    {
        let name: &str = names[i].as_str();
        let ghost done = texts(names@).take(i as int);
        let ghost next = texts(names@).take(i + 1);
        assert(next.drop_last() =~= done);
        assert(next.last() == name@);
        let ghost before = parts_of(components@);
        if name.is_empty() {
        } else if crate::text::text_eq(name, ".") {
            if literal || (relative && i == 0) {
                components.push(Component::Current);
                assert(parts_of(components@) =~= before.push(Part::Current));
            }
        } else if crate::text::text_eq(name, "..") {
            components.push(Component::Parent);
            assert(parts_of(components@) =~= before.push(Part::Parent));
        } else {
            components.push(Component::Normal(name.as_bytes_vec()));
            assert(parts_of(components@) =~= before.push(Part::Normal(encode_utf8(name@))));
        }
        i = i + 1;
        assert(parts_of(components@) =~= root + named_parts(next, relative, literal));
    }
    assert(texts(names@).take(i as int) =~= texts(names@));
}

fn separates(c: char, literal: bool) -> (r: bool)
    ensures
        r == is_separator(c, literal),
{
    c == '\\' || (c == '/' && !literal)
}

/// The first place at or after `from` of a separator.
fn find_separator(s: &Vec<char>, from: usize, literal: bool) -> (r: usize)
    requires
        from <= s@.len(),
    ensures
        r == separator_from(s@, from as int, literal),
        from <= r <= s@.len(),
{
    let mut i: usize = from;
    while i < s.len() && !separates(s[i], literal)
        invariant
            from <= i <= s@.len(),
            separator_from(s@, from as int, literal) == separator_from(s@, i as int, literal),
        decreases s@.len() - i,
    {
        i = i + 1;
    }
    i
}

fn has_drive(s: &Vec<char>, at: usize) -> (r: bool)
    requires
        at < usize::MAX,
    ensures
        r == drive_at(s@, at as int),
{
    if at + 1 >= s.len() {
        return false;
    }
    let c: char = s[at];
    ((c >= 'a' && c <= 'z') || (c >= 'A' && c <= 'Z')) && s[at + 1] == ':'
}

fn starts_literally(s: &Vec<char>) -> (r: bool)
    ensures
        r == is_literal(s@),
{
    s.len() >= 4 && s[0] == '\\' && s[1] == '\\' && s[2] == '?' && s[3] == '\\'
}

fn find_share_end(s: &Vec<char>, from: usize, literal: bool) -> (r: usize)
    requires
        from <= s@.len(),
    ensures
        r == share_end(s@, from as int, literal),
        from <= r <= s@.len(),
{
    let server: usize = find_separator(s, from, literal);
    if server < s.len() {
        let share: usize = find_separator(s, server + 1, literal);
        if share > server + 1 {
            return share;
        }
    }
    server
}

/// How many characters the prefix of a path takes.
fn prefix_length(s: &Vec<char>) -> (r: usize)
    ensures
        r == prefix_len(s@),
        r <= s@.len(),
{
    let len: usize = s.len();
    if starts_literally(s) {
        if len >= 8 && s[4] == 'U' && s[5] == 'N' && s[6] == 'C' && separates(s[7], false) {
            find_share_end(s, 8, true)
        } else if has_drive(s, 4) && (len == 6 || s[6] == '\\') {
            6
        } else {
            find_separator(s, 4, true)
        }
    } else if len >= 2 && separates(s[0], false) && separates(s[1], false) {
        if len >= 4 && s[2] == '.' && separates(s[3], false) {
            find_separator(s, 4, false)
        } else {
            let server: usize = find_separator(s, 2, false);
            let end: usize = find_share_end(s, 2, false);
            if server > 2 && end > server {
                end
            } else {
                0
            }
        }
    } else if has_drive(s, 0) {
        2
    } else {
        0
    }
}

fn evened_char(c: char, literal: bool) -> (r: char)
    ensures
        r == prefix_char(c, literal),
{
    if c == '/' && !literal {
        '\\'
    } else {
        c
    }
}

fn capital(c: char) -> (r: char)
    ensures
        r == drive_letter(c),
{
    if c >= 'a' && c <= 'z' {
        ((c as u8) - 32) as char
    } else {
        c
    }
}

/// The text with which a prefix is told from others.
fn prefix_string(s: &Vec<char>, n: usize) -> (r: String)
    requires
        n == prefix_len(s@),
        n <= s@.len(),
    ensures
        r@ == prefix_text(s@),
{
    let literal: bool = starts_literally(s);
    let drive: bool = literal && has_drive(s, 4);
    let mut chars: Vec<char> = Vec::new();
    let mut i: usize = 0;
    while i < n
        invariant
            i <= n <= s@.len(),
            n == prefix_len(s@),
            literal == is_literal(s@),
            drive == (literal && drive_at(s@, 4)),
            chars@ == prefix_text(s@).take(i as int),
        decreases n - i,
    {
        let c: char = if (n == 2 && i == 0) || (n == 6 && i == 4 && drive) {
            capital(s[i])
        } else {
            evened_char(s[i], literal)
        };
        chars.push(c);
        i = i + 1;
        assert(chars@ =~= prefix_text(s@).take(i as int));
    }
    assert(chars@ =~= prefix_text(s@));
    let r: String = text_of(&chars, 0, n);
    assert(r@ =~= prefix_text(s@));
    r
}

/// The names behind the prefix of a path.
fn even_names(s: &Vec<char>, n: usize, literal: bool) -> (r: Vec<String>)
    requires
        n <= s@.len(),
    ensures
        texts(r@) == pieces(evened(s@.skip(n as int), literal), '\\'),
{
    let ghost rest = s@.skip(n as int);
    let mut chars: Vec<char> = Vec::new();
    let mut i: usize = n;
    while i < s.len()
        invariant
            n <= i <= s@.len(),
            rest == s@.skip(n as int),
            chars@ == evened(rest, literal).take(i - n),
        decreases s@.len() - i,
    {
        chars.push(evened_char(s[i], literal));
        i = i + 1;
        assert(chars@ =~= evened(rest, literal).take(i - n));
    }
    assert(chars@ =~= evened(rest, literal));
    let text: String = text_of(&chars, 0, chars.len());
    assert(text@ =~= evened(rest, literal));
    split(text.as_str(), '\\')
}

/// The bytes `b[from..to]`.
pub fn byte_range(b: &Vec<u8>, from: usize, to: usize) -> (r: Vec<u8>)
    requires
        from <= to <= b@.len(),
    ensures
        r@ == b@.subrange(from as int, to as int),
{
    let mut r: Vec<u8> = Vec::new();
    let mut i: usize = from;
    while i < to
        invariant
            from <= i <= to <= b@.len(),
            r@ == b@.subrange(from as int, i as int),
        decreases to - i,
    {
        r.push(b[i]);
        i = i + 1;
        assert(b@.subrange(from as int, i as int) =~= b@.subrange(from as int, i - 1).push(
            b@[i - 1],
        ));
    }
    r
}

/// Where the extension of a name begins.
fn dot_of(name: &Vec<u8>) -> (r: Option<usize>)
    ensures
        match r {
            Some(i) => extension_dot(name@) == Some(i as int) && i < name@.len(),
            None => extension_dot(name@) is None,
        },
{
    let mut i: usize = name.len();
    while i > 0
        invariant
            i <= name@.len(),
            forall|k: int| i <= k < name@.len() ==> name@[k] != 46u8,
        decreases i,
    {
        if name[i - 1] == 46u8 {
            let at: usize = i - 1;
            proof {
                assert(name@.contains(46u8));
                name@.index_of_last_ensures(46u8);
            }
            return if at > 0 {
                Some(at)
            } else {
                None
            };
        }
        i = i - 1;
    }
    None
}

// What the parts of a path are -----------------------------------------------

/// A text that is one name: not empty, without a slash, and neither the directory
/// itself nor the one above.
pub open spec fn is_one_name(name: Seq<char>) -> bool {
    name.len() > 0 && !name.contains('/') && name != "."@ && name != ".."@
}

/// A name stands in the directory that it was put in: the directory is its
/// parent, the name is its name, and two names in one directory are two paths.
pub proof fn a_name_stands_in_its_directory(dir: Seq<Part>, name: Seq<u8>, other: Seq<u8>)
    ensures
        parent_of(dir.push(Part::Normal(name))) == Some(dir),
        name_of(dir.push(Part::Normal(name))) == Some(name),
        name != other ==> dir.push(Part::Normal(name)) != dir.push(Part::Normal(other)),
{
    assert(dir.push(Part::Normal(name)).drop_last() =~= dir);
    assert(dir.push(Part::Normal(name)).last() == Part::Normal(name));
    assert(dir.push(Part::Normal(other)).last() == Part::Normal(other));
}

/// The stem of a name is what stands in front of its last dot, and its extension
/// what stands behind; a name without a dot, or with one at its start only, is
/// all stem.
pub proof fn the_last_dot_parts_a_name(stem: Seq<u8>, ext: Seq<u8>)
    ensures
        stem.len() > 0 && !ext.contains(46u8) ==> name_stem(stem.push(46u8) + ext) == stem
            && name_extension(stem.push(46u8) + ext) == Some(ext),
        !ext.contains(46u8) ==> name_stem(ext) == ext && name_extension(ext) is None,
        !ext.contains(46u8) ==> name_stem(seq![46u8] + ext) == seq![46u8] + ext && name_extension(
            seq![46u8] + ext,
        ) is None,
{
    let name = stem.push(46u8) + ext;
    let at = stem.len() as int;
    if !ext.contains(46u8) {
        lemma_last_dot(name, at, ext);
        let hidden = seq![46u8] + ext;
        lemma_last_dot(hidden, 0, ext);
        assert(name.take(at) =~= stem);
        assert(name.skip(at + 1) =~= ext);
    }
}

proof fn lemma_last_dot(name: Seq<u8>, at: int, ext: Seq<u8>)
    requires
        0 <= at < name.len(),
        name[at] == 46u8,
        name.skip(at + 1) =~= ext,
        !ext.contains(46u8),
    ensures
        name.contains(46u8),
        name.index_of_last(46u8) == Some(at),
{
    assert(name.contains(46u8));
    name.index_of_last_ensures(46u8);
    let last = name.index_of_last(46u8)->0;
    if last > at {
        assert(ext[last - at - 1] == name[last]);
    }
}

/// A path that is one name is that name; joined to a directory, it is the name in
/// the directory.
pub proof fn one_name_is_put_in_a_directory(dir: Seq<Part>, name: Seq<char>)
    requires
        is_one_name(name),
    ensures
        path_of(name) == seq![Part::Normal(encode_utf8(name))],
        join_of(dir, path_of(name)) == dir.push(Part::Normal(encode_utf8(name))),
{
    assert(pieces(name, '/') =~= seq![name]);
    assert(pieces(name, '/').drop_last() =~= seq![]);
    assert(!(name[0] == '/')) by {
        if name[0] == '/' {
            assert(name.contains('/'));
        }
    }
    assert(named_parts(seq![], true, false) =~= seq![]);
    assert(path_of(name) =~= seq![Part::Normal(encode_utf8(name))]);
    assert(join_of(dir, path_of(name)) =~= dir.push(Part::Normal(encode_utf8(name))));
}

/// Folders below a directory are the folders behind it, in order; a path that
/// starts at the root stays what it is.
pub proof fn joining_puts_folders_behind(dir: Seq<Part>, below: Seq<Part>)
    ensures
        below.len() > 0 && (below[0] is Normal || below[0] is Parent) ==> join_of(dir, below)
            == dir + below,
        below.len() == 0 ==> join_of(dir, below) == dir,
        below.len() > 0 && below[0] is Prefix ==> join_of(dir, below) == below,
        below.len() > 0 && below[0] is Root && !(dir.len() > 0 && dir[0] is Prefix) ==> join_of(
            dir,
            below,
        ) == below,
{
    if below.len() == 0 {
        assert(join_of(dir, below) =~= dir);
    }
}

/// A folder with names in it, or a name in a folder, is written with the folder
/// first, a slash, and the name; the root is a slash alone.
pub proof fn names_are_written_behind_a_slash(dir: Seq<Part>, name: Seq<u8>)
    requires
        dir.len() > 0,
        !(dir[0] is Prefix),
        bytes_of(dir).len() > 0,
    ensures
        bytes_of(seq![Part::Root]) == seq![47u8],
        bytes_of(seq![Part::Normal(name)]) == name,
        bytes_of(dir.push(Part::Normal(name))) == (if bytes_of(dir).last() == 47u8 {
            bytes_of(dir) + name
        } else {
            bytes_of(dir).push(47u8) + name
        }),
{
    assert(seq![Part::Root].drop_last() =~= seq![]);
    assert(seq![Part::Normal(name)].drop_last() =~= seq![]);
    assert(bytes_of(seq![]) =~= seq![]);
    assert(bytes_of(seq![Part::Root]) =~= seq![47u8]);
    assert(bytes_of(seq![Part::Normal(name)]) =~= name);
    assert(dir.push(Part::Normal(name)).drop_last() =~= dir);
}

/// A name behind a slash is one more part of the path in front of the slash; a
/// slash in front of all is the root; a slash too many, and a dot between two, are
/// nothing.
pub proof fn a_slash_parts_names(dir: Seq<char>, name: Seq<char>)
    requires
        is_one_name(name),
        dir.len() > 0,
    ensures
        path_of(dir.push('/') + name) == path_of(dir).push(Part::Normal(encode_utf8(name))),
        path_of(dir.push('/')) == path_of(dir),
        path_of(seq!['/']) == seq![Part::Root],
        path_of(seq!['/'] + name) == seq![Part::Root, Part::Normal(encode_utf8(name))],
{
    let whole = dir.push('/') + name;
    lemma_pieces_behind(dir, name);
    let none: Seq<char> = seq![];
    lemma_pieces_behind(dir, none);
    assert(dir.push('/') + none =~= dir.push('/'));
    assert(pieces(name, '/') =~= seq![name]);
    assert(!none.contains('/'));
    assert(pieces(none, '/') =~= seq![none]);
    let names = pieces(dir, '/');
    assert(pieces(whole, '/') =~= names.push(name));
    assert(pieces(dir.push('/'), '/') =~= names.push(none));
    assert(names.push(name).drop_last() =~= names);
    assert(names.push(none).drop_last() =~= names);
    assert(names.len() > 0);
    assert(whole[0] == dir[0]);
    assert(path_of(whole) =~= path_of(dir).push(Part::Normal(encode_utf8(name))));
    assert(path_of(dir.push('/')) =~= path_of(dir));
    let slash = seq!['/'];
    lemma_pieces_behind(none, name);
    lemma_pieces_behind(none, none);
    assert(none.push('/') + none =~= slash);
    assert(none.push('/') + name =~= slash + name);
    assert(pieces(slash, '/') =~= seq![none, none]);
    assert(pieces(slash + name, '/') =~= seq![none, name]);
    assert(seq![none, none].drop_last() =~= seq![none]);
    assert(seq![none, name].drop_last() =~= seq![none]);
    assert(seq![none].drop_last() =~= seq![]);
    assert(named_parts(seq![], false, false) =~= seq![]);
    assert(named_parts(seq![none], false, false) =~= seq![]);
    assert(path_of(slash) =~= seq![Part::Root]);
    assert(path_of(slash + name) =~= seq![Part::Root, Part::Normal(encode_utf8(name))]);
}

proof fn lemma_pieces_behind(dir: Seq<char>, name: Seq<char>)
    ensures
        pieces(dir.push('/') + name, '/') == pieces(dir, '/') + pieces(name, '/'),
    decreases dir.len(),
{
    let whole = dir.push('/') + name;
    if dir.contains('/') {
        dir.index_of_first_ensures('/');
        let i = dir.index_of_first('/')->0;
        let first = dir.take(i);
        let rest = dir.skip(i + 1);
        assert(!first.contains('/')) by {
            if first.contains('/') {
                let k = choose|k: int| 0 <= k < first.len() && first[k] == '/';
                assert(dir[k] == '/');
            }
        }
        lemma_pieces_behind(rest, name);
        assert(whole =~= first.push('/') + (rest.push('/') + name));
        crate::text::pieces_make_up_the_text(whole, first, rest.push('/') + name, '/');
        assert(dir =~= first.push('/') + rest);
        crate::text::pieces_make_up_the_text(dir, first, rest, '/');
        assert(pieces(whole, '/') =~= pieces(dir, '/') + pieces(name, '/'));
    } else {
        crate::text::pieces_make_up_the_text(whole, dir, name, '/');
        assert(pieces(dir, '/') =~= seq![dir]);
    }
}

/// On Windows a path with a drive starts with the drive, as a capital, and with
/// the root where a separator follows it; either kind of slash parts names.
pub proof fn a_windows_path_starts_with_its_drive(letter: char, slash: char, name: Seq<char>)
    requires
        'A' <= letter <= 'Z',
        slash == '\\' || slash == '/',
        is_one_name(name),
        !name.contains('\\'),
    ensures
        windows_path_of(seq![letter, ':', slash] + name) == seq![
            Part::Prefix(encode_utf8(seq![letter, ':'])),
            Part::Root,
            Part::Normal(encode_utf8(name)),
        ],
{
    let s = seq![letter, ':', slash] + name;
    assert(s[0] == letter && s[1] == ':' && s[2] == slash);
    assert(drive_at(s, 0));
    assert(!is_literal(s) && !is_double(s));
    assert(prefix_len(s) == 2);
    assert(prefix_text(s) =~= seq![letter, ':']);
    let rest = s.skip(2);
    assert(rest =~= seq![slash] + name);
    let even = evened(rest, false);
    assert(even =~= seq!['\\'] + name) by {
        assert forall|i: int| 0 <= i < name.len() implies even[i + 1] == #[trigger] name[i] by {
            assert(rest[i + 1] == name[i]);
            if name[i] == '/' {
                assert(name.contains('/'));
            }
        }
    }
    let none: Seq<char> = seq![];
    assert(!none.contains('\\'));
    assert(none.push('\\') + name =~= even);
    crate::text::pieces_make_up_the_text(even, none, name, '\\');
    assert(pieces(name, '\\') =~= seq![name]);
    assert(pieces(even, '\\') =~= seq![none, name]);
    assert(seq![none, name].drop_last() =~= seq![none]);
    assert(seq![none].drop_last() =~= seq![]);
    assert(named_parts(seq![], false, false) =~= seq![]);
    assert(named_parts(seq![none], false, false) =~= seq![]);
    assert(named_parts(seq![none, name], false, false) =~= seq![
        Part::Normal(encode_utf8(name)),
    ]);
    assert(windows_path_of(s) =~= seq![
        Part::Prefix(encode_utf8(seq![letter, ':'])),
        Part::Root,
        Part::Normal(encode_utf8(name)),
    ]);
}

} // verus!
