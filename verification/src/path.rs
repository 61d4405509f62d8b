//! Names of shared entries.
//!
//! A sender turns each file path below the shared root into a `/`-joined
//! name; a receiver splits such a name at `/` and refuses every component
//! that could leave the export directory.

use std::path::Component;
use std::path::PathBuf;
use vstd::prelude::*;

verus! {

#[verifier::external_type_specification]
#[verifier::external_body]
pub struct ExPathBuf(PathBuf);

/// Why an export name component, or a path being named, was refused.
#[derive(Debug)]
pub enum PathError {
    /// An export component is empty (also what `//` or a leading `/` gives).
    EmptyComponent,
    /// An export component is `.`.
    DotComponent,
    /// An export component is `..`.
    DotDotComponent,
    /// An export component holds a NUL character.
    NulInComponent,
    /// An export component holds a backslash.
    BackslashInComponent,
    /// An export component holds a `/`.
    SlashInComponent,
    /// A path component is not valid UTF-8.
    InvalidCharacter,
    /// A path component may not stand in a canonical name.
    InvalidComponent(PathComponent),
}

/// The `Debug` text of a string (quoted, with escapes).
pub uninterp spec fn debug_text(s: Seq<char>) -> Seq<char>;

/// `format!("{s:?}")` on a `str`: the string's `Debug` text, named by
/// [`debug_text`], a function of the string alone.
#[verifier::external_body]
fn debug_string(s: &str) -> (r: String)
    ensures
        r@ == debug_text(s@),
{
    format!("{s:?}")
}

/// The text that names a path component in an error message.
pub open spec fn component_text(c: PathComponent) -> Seq<char> {
    match c {
        PathComponent::Prefix(t) => t@,
        PathComponent::RootDir => "RootDir"@,
        PathComponent::CurDir => "CurDir"@,
        PathComponent::ParentDir => "ParentDir"@,
        PathComponent::Normal(Some(p)) => debug_text(p@),
        PathComponent::Normal(None) => "Normal"@,
    }
}

/// The message of an error, as the command line prints it.
pub open spec fn error_text(e: PathError) -> Seq<char> {
    match e {
        PathError::EmptyComponent => "export path component must not be empty"@,
        PathError::DotComponent => "export path component must not be '.'"@,
        PathError::DotDotComponent => "export path component must not be '..'"@,
        PathError::NulInComponent => "export path component must not contain NUL"@,
        PathError::BackslashInComponent => "export path component must not contain '\\'"@,
        PathError::SlashInComponent => "export path component must not contain '/'"@,
        PathError::InvalidCharacter => "invalid character in path"@,
        PathError::InvalidComponent(c) => "invalid path component "@ + component_text(c),
    }
}

impl PathError {
    /// The error's message.
    pub fn message(&self) -> (r: String)
        ensures
            r@ == error_text(*self),
    {
        match self {
            PathError::EmptyComponent => "export path component must not be empty".to_owned(),
            PathError::DotComponent => "export path component must not be '.'".to_owned(),
            PathError::DotDotComponent => "export path component must not be '..'".to_owned(),
            PathError::NulInComponent => "export path component must not contain NUL".to_owned(),
            PathError::BackslashInComponent => "export path component must not contain '\\'".to_owned(),
            PathError::SlashInComponent => "export path component must not contain '/'".to_owned(),
            PathError::InvalidCharacter => "invalid character in path".to_owned(),
            PathError::InvalidComponent(c) => {
                let mut text = "invalid path component ".to_owned();
                match c {
                    PathComponent::Prefix(t) => text.append(t.as_str()),
                    PathComponent::RootDir => text.append("RootDir"),
                    PathComponent::CurDir => text.append("CurDir"),
                    PathComponent::ParentDir => text.append("ParentDir"),
                    PathComponent::Normal(Some(p)) => {
                        let quoted = debug_string(p.as_str());
                        text.append(quoted.as_str());
                    },
                    PathComponent::Normal(None) => text.append("Normal"),
                }
                text
            },
        }
    }
}

/// A component of a file system path, as the path parser reports it.
#[derive(Debug)]
pub enum PathComponent {
    /// A platform prefix (such as a drive letter), with the `Debug` text of
    /// the component it came from.
    Prefix(String),
    /// The root directory.
    RootDir,
    /// A `.` component.
    CurDir,
    /// A `..` component.
    ParentDir,
    /// A plain name; `None` when it is not valid UTF-8.
    Normal(Option<String>),
}

/// The error that a single export component draws, if any.
pub open spec fn component_error(c: Seq<char>) -> Option<PathError> {
    if c.len() == 0 {
        Some(PathError::EmptyComponent)
    } else if c =~= seq!['.'] {
        Some(PathError::DotComponent)
    } else if c =~= seq!['.', '.'] {
        Some(PathError::DotDotComponent)
    } else if c.contains('\0') {
        Some(PathError::NulInComponent)
    } else if c.contains('\\') {
        Some(PathError::BackslashInComponent)
    } else if c.contains('/') {
        Some(PathError::SlashInComponent)
    } else {
        None
    }
}

/// `s.push(c)` holds exactly what `s` holds, and `c`.
pub proof fn lemma_contains_push(s: Seq<char>, c: char)
    ensures
        forall|x: char| #[trigger] s.push(c).contains(x) <==> (s.contains(x) || c == x),
{
    assert forall|x: char| #[trigger] s.push(c).contains(x) <==> (s.contains(x) || c == x) by {
        let post = s.push(c);
        if post.contains(x) && c != x {
            let k = choose|k: int| 0 <= k < post.len() && post[k] == x;
            assert(s[k] == x);
        }
        if c == x {
            assert(post[s.len() as int] == x);
        }
        if s.contains(x) {
            let k = choose|k: int| 0 <= k < s.len() && s[k] == x;
            assert(post[k] == x);
        }
    }
}

/// The pieces of `s` between its `/` characters, as `str::split('/')`
/// gives them: one more piece than there are separators.
pub open spec fn split_slash(s: Seq<char>) -> Seq<Seq<char>>
    decreases s.len(),
{
    if s.len() == 0 {
        seq![Seq::<char>::empty()]
    } else {
        let rest = split_slash(s.drop_first());
        if s[0] == '/' {
            seq![Seq::<char>::empty()] + rest
        } else {
            rest.update(0, seq![s[0]] + rest[0])
        }
    }
}

/// The pieces of `ps` joined with `/` between them.
pub open spec fn join_slash(ps: Seq<Seq<char>>) -> Seq<char>
    decreases ps.len(),
{
    if ps.len() == 0 {
        Seq::<char>::empty()
    } else if ps.len() == 1 {
        ps[0]
    } else {
        ps[0] + seq!['/'] + join_slash(ps.drop_first())
    }
}

/// The error of the first refused component of `ps`, if any.
pub open spec fn first_component_error(ps: Seq<Seq<char>>) -> Option<PathError>
    decreases ps.len(),
{
    if ps.len() == 0 {
        None
    } else {
        match component_error(ps[0]) {
            Some(e) => Some(e),
            None => first_component_error(ps.drop_first()),
        }
    }
}

/// The error that an export name draws, if any: that of its first refused
/// `/`-separated component.
pub open spec fn export_name_error(name: Seq<char>) -> Option<PathError> {
    first_component_error(split_slash(name))
}

/// The views of a sequence of strings.
pub open spec fn string_views(v: Seq<String>) -> Seq<Seq<char>> {
    v.map_values(|p: String| p@)
}

pub proof fn lemma_split_len(s: Seq<char>)
    ensures
        split_slash(s).len() >= 1,
    decreases s.len(),
{
    if s.len() > 0 {
        lemma_split_len(s.drop_first());
    }
}

/// A prefix without `/` extends the first piece.
pub proof fn lemma_split_prefix(p: Seq<char>, t: Seq<char>)
    requires
        !p.contains('/'),
    ensures
        split_slash(p + t) =~= split_slash(t).update(0, p + split_slash(t)[0]),
    decreases p.len(),
{
    lemma_split_len(t);
    if p.len() == 0 {
        assert(p + t =~= t);
        assert(p + split_slash(t)[0] =~= split_slash(t)[0]);
    } else {
        let q = p.drop_first();
        assert(!q.contains('/')) by {
            if q.contains('/') {
                let k = choose|k: int| 0 <= k < q.len() && q[k] == '/';
                assert(p[k + 1] == '/');
            }
        }
        assert(p[0] != '/');
        lemma_split_prefix(q, t);
        assert((p + t).drop_first() =~= q + t);
        assert((p + t)[0] == p[0]);
        lemma_split_len(q + t);
        assert(seq![p[0]] + (q + split_slash(t)[0]) =~= p + split_slash(t)[0]);
    }
}

/// A piece without `/` followed by a separator splits off as its own piece.
pub proof fn lemma_split_segment(seg: Seq<char>, t: Seq<char>)
    requires
        !seg.contains('/'),
    ensures
        split_slash(seg + seq!['/'] + t) =~= seq![seg] + split_slash(t),
{
    let st = seq!['/'] + t;
    lemma_split_prefix(seg, st);
    assert(seg + seq!['/'] + t =~= seg + st);
    assert(st.drop_first() =~= t);
    assert(split_slash(st) =~= seq![Seq::<char>::empty()] + split_slash(t));
    assert(seg + Seq::<char>::empty() =~= seg);
}

/// Text without `/` is a single piece.
pub proof fn lemma_split_single(seg: Seq<char>)
    requires
        !seg.contains('/'),
    ensures
        split_slash(seg) =~= seq![seg],
{
    lemma_split_prefix(seg, Seq::<char>::empty());
    assert(seg + Seq::<char>::empty() =~= seg);
}

/// The first error of a concatenation: that of the front, else of the back.
pub proof fn lemma_first_error_concat(a: Seq<Seq<char>>, b: Seq<Seq<char>>)
    ensures
        first_component_error(a + b) == match first_component_error(a) {
            Some(e) => Some(e),
            None => first_component_error(b),
        },
    decreases a.len(),
{
    if a.len() > 0 {
        assert((a + b)[0] == a[0]);
        assert((a + b).drop_first() =~= a.drop_first() + b);
        lemma_first_error_concat(a.drop_first(), b);
    } else {
        assert(a + b =~= b);
    }
}

/// Checks one component of an export name.
pub fn validate_export_component(component: &str) -> (r: Result<(), PathError>)
    ensures
        match component_error(component@) {
            None => r is Ok,
            Some(e) => r == Err::<(), PathError>(e),
        },
{
    let n = component.unicode_len();
    if n == 0 {
        return Err(PathError::EmptyComponent);
    }
    if n == 1 && component.get_char(0) == '.' {
        assert(component@ =~= seq!['.']);
        return Err(PathError::DotComponent);
    }
    if n == 2 && component.get_char(0) == '.' && component.get_char(1) == '.' {
        assert(component@ =~= seq!['.', '.']);
        return Err(PathError::DotDotComponent);
    }
    assert(!(component@ =~= seq!['.'])) by {
        if n == 1 {
            assert(component@[0] != '.');
        }
    }
    assert(!(component@ =~= seq!['.', '.'])) by {
        if n == 2 {
            assert(component@[0] != '.' || component@[1] != '.');
        }
    }
    let mut has_nul = false;
    let mut has_backslash = false;
    let mut has_slash = false;
    let mut i: usize = 0;
    while i < n
        invariant
            n == component@.len(),
            0 <= i <= n,
            has_nul <==> component@.subrange(0, i as int).contains('\0'),
            has_backslash <==> component@.subrange(0, i as int).contains('\\'),
            has_slash <==> component@.subrange(0, i as int).contains('/'),
        decreases n - i,
    {
        let c = component.get_char(i);
        proof {
            let pre = component@.subrange(0, i as int);
            let post = component@.subrange(0, i + 1);
            assert(post =~= pre.push(c));
            lemma_contains_push(pre, c);
        }
        if c == '\0' {
            has_nul = true;
        } else if c == '\\' {
            has_backslash = true;
        } else if c == '/' {
            has_slash = true;
        }
        i = i + 1;
    }
    assert(component@.subrange(0, n as int) =~= component@);
    if has_nul {
        Err(PathError::NulInComponent)
    } else if has_backslash {
        Err(PathError::BackslashInComponent)
    } else if has_slash {
        Err(PathError::SlashInComponent)
    } else {
        Ok(())
    }
}

/// Splits an export name at `/` and checks every component, in order.
///
/// Succeeds exactly when no component is refused, and then gives the
/// components; otherwise gives the error of the first refused one.
pub fn export_components(name: &str) -> (r: Result<Vec<String>, PathError>)
    ensures
        match export_name_error(name@) {
            None => r is Ok && string_views(r->Ok_0@) == split_slash(name@),
            Some(e) => r == Err::<Vec<String>, PathError>(e),
        },
{
    let ghost s = name@;
    let n = name.unicode_len();
    let mut parts: Vec<String> = Vec::new();
    let mut start: usize = 0;
    let mut i: usize = 0;
    assert(s.subrange(0, n as int) =~= s);
    while i < n
        invariant
            n == s.len(),
            s == name@,
            0 <= start <= i <= n,
            !s.subrange(start as int, i as int).contains('/'),
            split_slash(s) =~= string_views(parts@) + split_slash(s.subrange(start as int, n as int)),
            first_component_error(string_views(parts@)) is None,
        decreases n - i,
    {
        let c = name.get_char(i);
        if c == '/' {
            let seg = name.substring_char(start, i);
            proof {
                let rest = s.subrange(i + 1, n as int);
                assert(s.subrange(start as int, n as int) =~= seg@ + seq!['/'] + rest);
                lemma_split_segment(seg@, rest);
                assert(string_views(parts@) + split_slash(s.subrange(start as int, n as int))
                    =~= (string_views(parts@) + seq![seg@]) + split_slash(rest));
                lemma_first_error_concat(string_views(parts@) + seq![seg@], split_slash(rest));
                lemma_first_error_concat(string_views(parts@), seq![seg@]);
                assert(seq![seg@].drop_first() =~= Seq::<Seq<char>>::empty());
                assert(first_component_error(Seq::<Seq<char>>::empty()) is None);
            }
            match validate_export_component(seg) {
                Err(e) => {
                    return Err(e);
                },
                Ok(()) => {},
            }
            let ghost before = string_views(parts@);
            let owned = seg.to_owned();
            parts.push(owned);
            assert(string_views(parts@) =~= before + seq![seg@]);
            start = i + 1;
        } else {
            proof {
                let pre = s.subrange(start as int, i as int);
                assert(s.subrange(start as int, i + 1) =~= pre.push(c));
                lemma_contains_push(pre, c);
            }
        }
        i = i + 1;
    }
    let seg = name.substring_char(start, n);
    proof {
        lemma_split_single(seg@);
        lemma_first_error_concat(string_views(parts@), seq![seg@]);
        assert(seq![seg@].drop_first() =~= Seq::<Seq<char>>::empty());
        assert(first_component_error(Seq::<Seq<char>>::empty()) is None);
    }
    match validate_export_component(seg) {
        Err(e) => {
            return Err(e);
        },
        Ok(()) => {},
    }
    let ghost before = string_views(parts@);
    let owned = seg.to_owned();
    parts.push(owned);
    assert(string_views(parts@) =~= before + seq![seg@]);
    Ok(parts)
}

/// What `PathBuf::push` makes of a path and one more piece: the path as
/// it stands after the push, a function of the path and the piece alone.
pub uninterp spec fn path_pushed(p: PathBuf, part: Seq<char>) -> PathBuf;

/// What `Path::components` gives for a path, each component converted as
/// [`path_components`] converts it: a function of the path alone.
pub uninterp spec fn path_component_list(p: PathBuf) -> Seq<PathComponent>;

/// A piece that Windows reads as a drive prefix: an ASCII letter, then `:`.
pub open spec fn drive_like(part: Seq<char>) -> bool {
    &&& part.len() >= 2
    &&& part[1] == ':'
    &&& ('a' <= part[0] <= 'z' || 'A' <= part[0] <= 'Z')
}

/// A piece that extends a path by exactly one name component: an accepted
/// export component that no platform reads as a drive prefix.
pub open spec fn plain_piece(part: Seq<char>) -> bool {
    component_error(part) is None && !drive_like(part)
}

/// `after` is `before` followed by one name component whose text is `part`.
pub open spec fn one_more_name(
    before: Seq<PathComponent>,
    after: Seq<PathComponent>,
    part: Seq<char>,
) -> bool {
    &&& after.len() == before.len() + 1
    &&& after.take(before.len() as int) == before
    &&& after.last() matches PathComponent::Normal(Some(s)) && s@ == part
}

/// `std::path::PathBuf::clone`: a copy of the same path.
#[verifier::external_body]
fn clone_path(path: &PathBuf) -> (copy: PathBuf)
    ensures
        copy == *path,
{
    path.clone()
}

/// Components that begin with a platform prefix not followed by the root
/// directory (such as those of `C:`, `C:dir` or `\\?\C:`). Pushing onto a
/// verbatim such path rebuilds it with a root directory after the prefix.
pub open spec fn bare_prefix(cs: Seq<PathComponent>) -> bool {
    &&& cs.len() >= 1
    &&& cs[0] is Prefix
    &&& !(cs.len() >= 2 && cs[1] is RootDir)
}

/// `std::path::PathBuf::push` with a single relative piece.
///
/// The new path is named by [`path_pushed`]. Of a plain piece (non-empty,
/// not `.` or `..`, without `/`, `\` or NUL, and no drive prefix) pushed
/// onto a path that does not begin with a bare prefix, the source of `push`
/// and the documentation of `components` show more: the piece is joined on
/// with a separator, so the components are those of the old path and then
/// the piece as one more name component. Of a path that begins with a bare
/// prefix nothing more is stated: on Windows a verbatim one gains a root
/// directory.
#[verifier::external_body]
fn push_component(path: &mut PathBuf, part: &str)
    ensures
        *final(path) == path_pushed(*old(path), part@),
        plain_piece(part@) && !bare_prefix(path_component_list(*old(path))) ==> one_more_name(
            path_component_list(*old(path)),
            path_component_list(*final(path)),
            part@,
        ),
{
    path.push(part)
}

/// `root` with each of `parts` pushed onto it, in order.
pub open spec fn pushed_all(root: PathBuf, parts: Seq<Seq<char>>) -> PathBuf
    decreases parts.len(),
{
    if parts.len() == 0 {
        root
    } else {
        path_pushed(pushed_all(root, parts.drop_last()), parts.last())
    }
}

/// `p` lies below `root` along `parts`: its components are those of `root`,
/// then one name component for each of `parts`, in order, and nothing else.
pub open spec fn extends_by(root: PathBuf, p: PathBuf, parts: Seq<Seq<char>>) -> bool {
    let rc = path_component_list(root);
    let pc = path_component_list(p);
    &&& pc.len() == rc.len() + parts.len()
    &&& pc.take(rc.len() as int) == rc
    &&& forall|i: int|
        0 <= i < parts.len() ==> (#[trigger] pc[rc.len() + i] matches PathComponent::Normal(Some(s))
            && s@ == parts[i])
}

/// No `/`-separated component of `name` is read as a drive prefix.
pub open spec fn no_drive_piece(name: Seq<char>) -> bool {
    forall|i: int| 0 <= i < split_slash(name).len() ==> !drive_like(#[trigger] split_slash(name)[i])
}

/// Where the export target of `name` below `root` is known to stay below
/// it: no component of `name` is a drive prefix and `root` does not begin
/// with a bare prefix.
pub open spec fn plain_target(root: PathBuf, name: Seq<char>) -> bool {
    no_drive_piece(name) && !bare_prefix(path_component_list(root))
}

/// A path that extends a root without a bare prefix has none either.
proof fn lemma_extends_keeps_prefix(root: PathBuf, p: PathBuf, parts: Seq<Seq<char>>)
    requires
        extends_by(root, p, parts),
        !bare_prefix(path_component_list(root)),
    ensures
        !bare_prefix(path_component_list(p)),
{
    let rc = path_component_list(root);
    let pc = path_component_list(p);
    if pc.len() >= 1 {
        if rc.len() >= 1 {
            assert(pc[0] == pc.take(rc.len() as int)[0]);
        }
        if rc.len() >= 2 {
            assert(pc[1] == pc.take(rc.len() as int)[1]);
        }
        if rc.len() == 0 {
            assert(pc[rc.len() + 0int] matches PathComponent::Normal(Some(s)) && s@ == parts[0]);
        }
    }
}

/// The export target of `name` below `root`: `root` with every `/`-separated
/// component of `name` pushed onto it.
///
/// Fails exactly when some component of `name` is refused, with the error of
/// the first refused component. An accepted target stays below `root`
/// (where [`plain_target`] holds): its components are those of `root`
/// followed by the components of `name`, each a plain name (none of them
/// `..`).
pub fn get_export_path(root: &PathBuf, name: &str) -> (r: Result<PathBuf, PathError>)
    ensures
        r is Ok <==> export_name_error(name@) is None,
        r matches Err(e) ==> export_name_error(name@) == Some(e),
        r matches Ok(p) ==> p == pushed_all(*root, split_slash(name@)),
        r matches Ok(p) ==> plain_target(*root, name@) ==> extends_by(
            *root,
            p,
            split_slash(name@),
        ),
{
    let parts = match export_components(name) {
        Ok(parts) => parts,
        Err(e) => {
            return Err(e);
        },
    };
    let ghost views = string_views(parts@);
    proof {
        lemma_first_error_none(views);
    }
    let mut path = clone_path(root);
    let mut i: usize = 0;
    assert(views.take(0) =~= Seq::<Seq<char>>::empty());
    assert(path_component_list(path).take(path_component_list(*root).len() as int)
        =~= path_component_list(*root));
    while i < parts.len()
        invariant
            0 <= i <= parts.len(),
            views == string_views(parts@),
            views == split_slash(name@),
            forall|k: int| 0 <= k < views.len() ==> component_error(#[trigger] views[k]) is None,
            path == pushed_all(*root, views.take(i as int)),
            plain_target(*root, name@) ==> extends_by(*root, path, views.take(i as int)),
        decreases parts.len() - i,
    {
        let ghost before = path;
        let ghost done = views.take(i as int);
        let ghost next = views.take(i + 1);
        assert(next.drop_last() =~= done);
        assert(next.last() == views[i as int]);
        assert(views[i as int] == parts@[i as int]@);
        push_component(&mut path, parts[i].as_str());
        proof {
            if plain_target(*root, name@) {
                assert(!drive_like(split_slash(name@)[i as int]));
                lemma_extends_keeps_prefix(*root, before, done);
                assert(plain_piece(parts@[i as int]@));
                let rc = path_component_list(*root);
                let bc = path_component_list(before);
                let pc = path_component_list(path);
                assert(pc.take(rc.len() as int) =~= bc.take(rc.len() as int)) by {
                    assert forall|k: int| 0 <= k < rc.len() implies pc[k] == bc[k] by {
                        assert(pc.take(bc.len() as int)[k] == pc[k]);
                    }
                }
                assert forall|k: int| 0 <= k < next.len() implies (#[trigger] pc[rc.len() + k]
                    matches PathComponent::Normal(Some(s)) && s@ == next[k]) by {
                    if k < done.len() {
                        assert(pc.take(bc.len() as int)[rc.len() + k] == pc[rc.len() + k]);
                        assert(bc[rc.len() + k] matches PathComponent::Normal(Some(s)) && s@
                            == done[k]);
                    } else {
                        assert(pc.last() == pc[rc.len() + k]);
                    }
                }
            }
        }
        i = i + 1;
    }
    assert(views.take(parts.len() as int) =~= views);
    Ok(path)
}

/// What one path component contributes to a canonical name.
pub enum CanonicalStep {
    /// A leading `/` (the root directory of an absolute path).
    Slash,
    /// A name component.
    Part(Seq<char>),
    /// The component refuses the whole path.
    Fail(PathError),
}

/// How a single path component is treated when naming a path.
pub open spec fn canonical_step(c: PathComponent, must_be_relative: bool) -> CanonicalStep {
    match c {
        PathComponent::Normal(None) => CanonicalStep::Fail(PathError::InvalidCharacter),
        PathComponent::Normal(Some(p)) => {
            if p@.contains('/') || p@.contains('\\') {
                CanonicalStep::Fail(PathError::InvalidComponent(c))
            } else {
                CanonicalStep::Part(p@)
            }
        },
        PathComponent::RootDir => {
            if must_be_relative {
                CanonicalStep::Fail(PathError::InvalidComponent(c))
            } else {
                CanonicalStep::Slash
            }
        },
        _ => CanonicalStep::Fail(PathError::InvalidComponent(c)),
    }
}

/// The error of the first component that refuses the path, if any.
pub open spec fn canonical_error(cs: Seq<PathComponent>, must_be_relative: bool) -> Option<PathError>
    decreases cs.len(),
{
    if cs.len() == 0 {
        None
    } else {
        match canonical_error(cs.drop_last(), must_be_relative) {
            Some(e) => Some(e),
            None => match canonical_step(cs.last(), must_be_relative) {
                CanonicalStep::Fail(e) => Some(e),
                _ => None,
            },
        }
    }
}

/// How many root-directory components the path has.
pub open spec fn canonical_slashes(cs: Seq<PathComponent>, must_be_relative: bool) -> nat
    decreases cs.len(),
{
    if cs.len() == 0 {
        0
    } else {
        canonical_slashes(cs.drop_last(), must_be_relative) + if canonical_step(
            cs.last(),
            must_be_relative,
        ) is Slash {
            1nat
        } else {
            0nat
        }
    }
}

/// The name components of the path, in order.
pub open spec fn canonical_parts(cs: Seq<PathComponent>, must_be_relative: bool) -> Seq<Seq<char>>
    decreases cs.len(),
{
    if cs.len() == 0 {
        Seq::empty()
    } else {
        let front = canonical_parts(cs.drop_last(), must_be_relative);
        match canonical_step(cs.last(), must_be_relative) {
            CanonicalStep::Part(p) => front.push(p),
            _ => front,
        }
    }
}

/// `n` copies of `/`.
pub open spec fn slashes(n: nat) -> Seq<char> {
    Seq::new(n, |i: int| '/')
}

/// The canonical name of a path given by its components: a `/` for each
/// root-directory component, then the name components joined with `/`;
/// or the error of the first component that refuses the path.
pub open spec fn canonical_name(cs: Seq<PathComponent>, must_be_relative: bool) -> Result<
    Seq<char>,
    PathError,
> {
    match canonical_error(cs, must_be_relative) {
        Some(e) => Err(e),
        None => Ok(
            slashes(canonical_slashes(cs, must_be_relative)) + join_slash(
                canonical_parts(cs, must_be_relative),
            ),
        ),
    }
}

/// The view of a naming result: the text of the name, or the error.
pub open spec fn name_result(r: Result<String, PathError>) -> Result<Seq<char>, PathError> {
    match r {
        Ok(s) => Ok(s@),
        Err(e) => Err(e),
    }
}

/// Whether `s` holds the character `c`.
pub fn str_contains(s: &str, c: char) -> (b: bool)
    ensures
        b == s@.contains(c),
{
    let n = s.unicode_len();
    let mut i: usize = 0;
    while i < n
        invariant
            n == s@.len(),
            0 <= i <= n,
            !s@.subrange(0, i as int).contains(c),
        decreases n - i,
    {
        let d = s.get_char(i);
        if d == c {
            assert(s@[i as int] == c);
            return true;
        }
        proof {
            lemma_contains_push(s@.subrange(0, i as int), d);
            assert(s@.subrange(0, i + 1) =~= s@.subrange(0, i as int).push(d));
        }
        i = i + 1;
    }
    assert(s@.subrange(0, n as int) =~= s@);
    false
}

pub proof fn lemma_join_push(ps: Seq<Seq<char>>, p: Seq<char>)
    ensures
        join_slash(ps.push(p)) =~= if ps.len() == 0 {
            p
        } else {
            join_slash(ps) + seq!['/'] + p
        },
    decreases ps.len(),
{
    if ps.len() == 0 {
        assert(ps.push(p) =~= seq![p]);
    } else if ps.len() == 1 {
        assert(ps.push(p).drop_first() =~= seq![p]);
        assert(join_slash(seq![p]) == p);
        assert(ps.push(p)[0] == ps[0]);
    } else {
        let q = ps.drop_first();
        lemma_join_push(q, p);
        assert(ps.push(p).drop_first() =~= q.push(p));
        assert(ps.push(p)[0] == ps[0]);
        assert(join_slash(ps.push(p)) =~= ps[0] + seq!['/'] + join_slash(q.push(p)));
        assert(join_slash(ps) =~= ps[0] + seq!['/'] + join_slash(q));
    }
}

/// What the naming loop learns of one component.
enum Classified {
    Slash,
    Part,
    InvalidCharacter,
    Invalid,
}

fn classify(c: &PathComponent, must_be_relative: bool) -> (k: Classified)
    ensures
        match k {
            Classified::Slash => canonical_step(*c, must_be_relative) is Slash,
            Classified::Part => c matches PathComponent::Normal(Some(p)) && canonical_step(
                *c,
                must_be_relative,
            ) == CanonicalStep::Part(p@),
            Classified::InvalidCharacter => canonical_step(*c, must_be_relative)
                == CanonicalStep::Fail(PathError::InvalidCharacter),
            Classified::Invalid => canonical_step(*c, must_be_relative) == CanonicalStep::Fail(
                PathError::InvalidComponent(*c),
            ),
        },
{
    match c {
        PathComponent::Normal(None) => Classified::InvalidCharacter,
        PathComponent::Normal(Some(p)) => {
            if str_contains(p.as_str(), '/') || str_contains(p.as_str(), '\\') {
                Classified::Invalid
            } else {
                Classified::Part
            }
        },
        PathComponent::RootDir => {
            if must_be_relative {
                Classified::Invalid
            } else {
                Classified::Slash
            }
        },
        _ => Classified::Invalid,
    }
}

/// Joins path components into a canonical name: a `/` for each root
/// directory, then the name components separated by `/`.
///
/// Refuses a component that is not valid UTF-8, one that holds `/` or `\`,
/// `.`, `..`, a platform prefix, and (when `must_be_relative`) the root
/// directory; the first such component decides the error.
pub fn join_canonical_components(components: Vec<PathComponent>, must_be_relative: bool) -> (r:
    Result<String, PathError>)
    ensures
        name_result(r) == canonical_name(components@, must_be_relative),
{
    let ghost cs = components@;
    let mut comps = components;
    let mut slash_count: usize = 0;
    let mut parts: Vec<String> = Vec::new();
    let mut i: usize = 0;
    while i < comps.len()
        invariant
            comps@ == cs,
            cs == components@,
            0 <= i <= cs.len(),
            canonical_error(cs.take(i as int), must_be_relative) is None,
            slash_count == canonical_slashes(cs.take(i as int), must_be_relative),
            string_views(parts@) == canonical_parts(cs.take(i as int), must_be_relative),
            slash_count <= i,
        decreases cs.len() - i,
    {
        let ghost front = cs.take(i as int);
        let ghost next = cs.take(i + 1);
        assert(next.drop_last() =~= front);
        assert(next.last() == cs[i as int]);
        match classify(&comps[i], must_be_relative) {
            Classified::Slash => {
                slash_count = slash_count + 1;
            },
            Classified::Part => {
                let ghost before = string_views(parts@);
                match &comps[i] {
                    PathComponent::Normal(Some(p)) => {
                        let copy = p.clone();
                        parts.push(copy);
                    },
                    _ => {},
                }
                assert(string_views(parts@) =~= before.push(string_views(parts@).last()));
            },
            Classified::InvalidCharacter => {
                assert(canonical_error(next, must_be_relative) == Some(PathError::InvalidCharacter));
                assert(cs.take(cs.len() as int) =~= cs);
                proof { lemma_canonical_error_extends(cs, i + 1, must_be_relative); }
                return Err(PathError::InvalidCharacter);
            },
            Classified::Invalid => {
                let c = comps.remove(i);
                assert(canonical_error(next, must_be_relative) == Some(PathError::InvalidComponent(c)));
                proof { lemma_canonical_error_extends(cs, i + 1, must_be_relative); }
                return Err(PathError::InvalidComponent(c));
            },
        }
        i = i + 1;
    }
    assert(cs.take(cs.len() as int) =~= cs);
    let mut out = String::new();
    let mut k: usize = 0;
    while k < slash_count
        invariant
            0 <= k <= slash_count,
            out@ =~= slashes(k as nat),
        decreases slash_count - k,
    {
        proof { reveal_strlit("/"); }
        out.append("/");
        k = k + 1;
    }
    let ghost prefix = out@;
    let mut j: usize = 0;
    while j < parts.len()
        invariant
            0 <= j <= parts.len(),
            out@ =~= prefix + join_slash(string_views(parts@).take(j as int)),
        decreases parts.len() - j,
    {
        let ghost done = string_views(parts@).take(j as int);
        proof {
            lemma_join_push(done, parts@[j as int]@);
            assert(string_views(parts@).take(j + 1) =~= done.push(parts@[j as int]@));
        }
        if j > 0 {
            proof { reveal_strlit("/"); }
            out.append("/");
        }
        out.append(parts[j].as_str());
        j = j + 1;
    }
    assert(string_views(parts@).take(parts.len() as int) =~= string_views(parts@));
    Ok(out)
}

/// Once a prefix of the components refuses the path, the whole path is
/// refused with the same error.
pub proof fn lemma_canonical_error_extends(cs: Seq<PathComponent>, i: int, must_be_relative: bool)
    requires
        0 <= i <= cs.len(),
        canonical_error(cs.take(i), must_be_relative) is Some,
    ensures
        canonical_error(cs, must_be_relative) == canonical_error(cs.take(i), must_be_relative),
    decreases cs.len() - i,
{
    if i == cs.len() {
        assert(cs.take(i) =~= cs);
    } else {
        assert(cs.take(i + 1).drop_last() =~= cs.take(i));
        assert(canonical_error(cs.take(i + 1), must_be_relative) == canonical_error(
            cs.take(i),
            must_be_relative,
        ));
        lemma_canonical_error_extends(cs, i + 1, must_be_relative);
    }
}

/// `std::path::Path::components`, each component converted to a
/// [`PathComponent`] (a name keeps its text when it is valid UTF-8; a
/// prefix keeps the component's `Debug` text). How a
/// path splits into components is the platform's rule; the result is named
/// by [`path_component_list`].
#[verifier::external_body]
fn path_components(path: &PathBuf) -> (components: Vec<PathComponent>)
    ensures
        components@ == path_component_list(*path),
{
    path.components().map(|c| match c {
        Component::Prefix(_) => PathComponent::Prefix(format!("{c:?}")),
        Component::RootDir => PathComponent::RootDir,
        Component::CurDir => PathComponent::CurDir,
        Component::ParentDir => PathComponent::ParentDir,
        Component::Normal(os) => PathComponent::Normal(os.to_str().map(str::to_owned)),
    }).collect()
}

/// The `/`-joined name of an already canonicalized path.
///
/// The path's components, as the platform splits them, are joined by
/// [`join_canonical_components`]: the result is the canonical name of the
/// path's components.
pub fn canonicalized_path_to_string(path: &PathBuf, must_be_relative: bool) -> (r: Result<
    String,
    PathError,
>)
    ensures
        name_result(r) == canonical_name(path_component_list(*path), must_be_relative),
{
    let components = path_components(path);
    join_canonical_components(components, must_be_relative)
}

} // verus!

verus! {

/// A single component that no export name may hold: empty, `.`, `..`, or
/// one with `/`, `\` or NUL in it.
pub open spec fn unsafe_component(c: Seq<char>) -> bool {
    ||| c.len() == 0
    ||| c =~= seq!['.']
    ||| c =~= seq!['.', '.']
    ||| c.contains('/')
    ||| c.contains('\\')
    ||| c.contains('\0')
}

/// A sequence of pieces has no refused piece exactly when its first-error
/// search finds none.
pub proof fn lemma_first_error_none(ps: Seq<Seq<char>>)
    ensures
        first_component_error(ps) is None <==> forall|i: int|
            0 <= i < ps.len() ==> component_error(#[trigger] ps[i]) is None,
    decreases ps.len(),
{
    if ps.len() > 0 {
        lemma_first_error_none(ps.drop_first());
        if first_component_error(ps) is None {
            assert forall|i: int| 0 <= i < ps.len() implies component_error(
                #[trigger] ps[i],
            ) is None by {
                if i > 0 {
                    assert(ps[i] == ps.drop_first()[i - 1]);
                }
            }
        }
        if forall|i: int| 0 <= i < ps.len() ==> component_error(#[trigger] ps[i]) is None {
            assert(component_error(ps[0]) is None);
            assert forall|i: int| 0 <= i < ps.drop_first().len() implies component_error(
                #[trigger] ps.drop_first()[i],
            ) is None by {
                assert(ps.drop_first()[i] == ps[i + 1]);
            }
        }
    }
}

/// Law: every component of an accepted export name is safe to push below
/// the export root. No component is empty, `.` or `..`, and none holds
/// `/`, `\` or NUL, so the target cannot leave the root.
pub proof fn law_accepted_export_components_are_safe(name: Seq<char>)
    requires
        export_name_error(name) is None,
    ensures
        forall|i: int|
            0 <= i < split_slash(name).len() ==> !unsafe_component(#[trigger] split_slash(name)[i]),
{
    lemma_first_error_none(split_slash(name));
    assert forall|i: int| 0 <= i < split_slash(name).len() implies !unsafe_component(
        #[trigger] split_slash(name)[i],
    ) by {
        assert(component_error(split_slash(name)[i]) is None);
    }
}

/// Replacing the first piece of at least two pieces replaces the text
/// before the first separator.
proof fn lemma_join_update_first(ps: Seq<Seq<char>>, x: Seq<char>)
    requires
        ps.len() >= 1,
    ensures
        join_slash(ps.update(0, x)) =~= if ps.len() == 1 {
            x
        } else {
            x + seq!['/'] + join_slash(ps.drop_first())
        },
{
    if ps.len() > 1 {
        assert(ps.update(0, x).drop_first() =~= ps.drop_first());
    }
}

/// Law: joining the pieces of a text with `/` gives the text back.
pub proof fn law_join_split(s: Seq<char>)
    ensures
        join_slash(split_slash(s)) =~= s,
    decreases s.len(),
{
    if s.len() > 0 {
        let t = s.drop_first();
        law_join_split(t);
        lemma_split_len(t);
        let rest = split_slash(t);
        if s[0] == '/' {
            let ps = seq![Seq::<char>::empty()] + rest;
            assert(ps.drop_first() =~= rest);
            assert(ps[0] =~= Seq::<char>::empty());
            assert(s =~= seq!['/'] + t);
        } else {
            lemma_join_update_first(rest, seq![s[0]] + rest[0]);
            if rest.len() == 1 {
                assert(join_slash(rest) == rest[0]);
            } else {
                assert(join_slash(rest) =~= rest[0] + seq!['/'] + join_slash(rest.drop_first()));
            }
            assert(s =~= seq![s[0]] + t);
        }
    }
}

/// Law: splitting `/`-joined pieces that hold no `/` gives the pieces back.
pub proof fn law_split_join(ps: Seq<Seq<char>>)
    requires
        ps.len() >= 1,
        forall|i: int| 0 <= i < ps.len() ==> !(#[trigger] ps[i]).contains('/'),
    ensures
        split_slash(join_slash(ps)) =~= ps,
    decreases ps.len(),
{
    if ps.len() == 1 {
        lemma_split_single(ps[0]);
        assert(seq![ps[0]] =~= ps);
    } else {
        let q = ps.drop_first();
        assert forall|i: int| 0 <= i < q.len() implies !(#[trigger] q[i]).contains('/') by {
            assert(q[i] == ps[i + 1]);
        }
        law_split_join(q);
        assert(!ps[0].contains('/'));
        lemma_split_segment(ps[0], join_slash(q));
        assert(seq![ps[0]] + q =~= ps);
    }
}

/// The name components of a path that no component refuses hold neither
/// `/` nor `\`; and a path that must be relative has no root.
proof fn lemma_canonical_parts_plain(cs: Seq<PathComponent>, must_be_relative: bool)
    requires
        canonical_error(cs, must_be_relative) is None,
    ensures
        forall|i: int|
            0 <= i < canonical_parts(cs, must_be_relative).len() ==> !(#[trigger] canonical_parts(
                cs,
                must_be_relative,
            )[i]).contains('/') && !canonical_parts(cs, must_be_relative)[i].contains('\\'),
        must_be_relative ==> canonical_slashes(cs, must_be_relative) == 0,
    decreases cs.len(),
{
    if cs.len() > 0 {
        lemma_canonical_parts_plain(cs.drop_last(), must_be_relative);
        let front = canonical_parts(cs.drop_last(), must_be_relative);
        let ps = canonical_parts(cs, must_be_relative);
        match canonical_step(cs.last(), must_be_relative) {
            CanonicalStep::Part(p) => {
                assert(ps == front.push(p));
                assert(!p.contains('/') && !p.contains('\\'));
                assert forall|i: int| 0 <= i < ps.len() implies !(#[trigger] ps[i]).contains('/')
                    && !ps[i].contains('\\') by {
                    if i < front.len() {
                        assert(ps[i] == front[i]);
                    } else {
                        assert(ps[i] == p);
                    }
                }
            },
            _ => {},
        }
    }
}

/// Law: what a sender names, a receiver accepts and splits back into the
/// same components.
///
/// A path that must be relative and that no component refuses gets a
/// canonical name; when it has at least one name component and none of
/// them is empty, `.` or `..` or holds NUL, that name is an accepted
/// export name whose components are the path's name components, in order.
pub proof fn law_canonical_name_is_exportable(cs: Seq<PathComponent>)
    requires
        canonical_error(cs, true) is None,
        canonical_parts(cs, true).len() >= 1,
        forall|i: int|
            0 <= i < canonical_parts(cs, true).len() ==> {
                let p = #[trigger] canonical_parts(cs, true)[i];
                &&& p.len() > 0
                &&& !(p =~= seq!['.'])
                &&& !(p =~= seq!['.', '.'])
                &&& !p.contains('\0')
            },
    ensures
        canonical_name(cs, true) matches Ok(text) && export_name_error(text) is None
            && split_slash(text) == canonical_parts(cs, true),
{
    let ps = canonical_parts(cs, true);
    lemma_canonical_parts_plain(cs, true);
    assert(slashes(0) =~= Seq::<char>::empty());
    let text = join_slash(ps);
    assert(canonical_name(cs, true) == Ok::<Seq<char>, PathError>(
        Seq::<char>::empty() + text,
    ));
    assert(Seq::<char>::empty() + text =~= text);
    law_split_join(ps);
    lemma_first_error_none(ps);
    assert forall|i: int| 0 <= i < ps.len() implies component_error(#[trigger] ps[i]) is None by {
        assert(!ps[i].contains('/'));
        assert(!ps[i].contains('\\'));
    }
}

/// Name components whose texts hold neither `/` nor `\` pass naming
/// unchanged: no error, no root, and the texts as the name components.
proof fn lemma_plain_names(cs: Seq<PathComponent>, texts: Seq<Seq<char>>, must_be_relative: bool)
    requires
        cs.len() == texts.len(),
        forall|i: int|
            0 <= i < cs.len() ==> (#[trigger] cs[i] matches PathComponent::Normal(Some(s)) && s@
                == texts[i]),
        forall|i: int|
            0 <= i < texts.len() ==> !(#[trigger] texts[i]).contains('/') && !texts[i].contains(
                '\\',
            ),
    ensures
        canonical_error(cs, must_be_relative) is None,
        canonical_slashes(cs, must_be_relative) == 0,
        canonical_parts(cs, must_be_relative) =~= texts,
    decreases cs.len(),
{
    if cs.len() > 0 {
        let n = cs.len() - 1;
        assert forall|i: int| 0 <= i < cs.drop_last().len() implies (
        #[trigger] cs.drop_last()[i] matches PathComponent::Normal(Some(s)) && s@
            == texts.drop_last()[i]) by {
            assert(cs.drop_last()[i] == cs[i]);
            assert(texts.drop_last()[i] == texts[i]);
        }
        assert forall|i: int| 0 <= i < texts.drop_last().len() implies !(
        #[trigger] texts.drop_last()[i]).contains('/') && !texts.drop_last()[i].contains('\\') by {
            assert(texts.drop_last()[i] == texts[i]);
        }
        lemma_plain_names(cs.drop_last(), texts.drop_last(), must_be_relative);
        assert(cs.last() == cs[n]);
        assert(cs[n] matches PathComponent::Normal(Some(s)) && s@ == texts[n]);
        assert(!texts[n].contains('/') && !texts[n].contains('\\'));
        assert(canonical_step(cs.last(), must_be_relative) == CanonicalStep::Part(texts[n]));
        assert(texts.drop_last().push(texts[n]) =~= texts);
    }
}

/// Law: the components that an accepted export name adds below the export
/// root name the same text back. Name components whose texts are the
/// `/`-separated components of an accepted name, in order, have that name
/// as their canonical name, whether or not the path must be relative.
pub proof fn law_export_components_name_back(cs: Seq<PathComponent>, name: Seq<char>)
    requires
        export_name_error(name) is None,
        cs.len() == split_slash(name).len(),
        forall|i: int|
            0 <= i < cs.len() ==> (#[trigger] cs[i] matches PathComponent::Normal(Some(s)) && s@
                == split_slash(name)[i]),
    ensures
        canonical_name(cs, true) == Ok::<Seq<char>, PathError>(name),
        canonical_name(cs, false) == Ok::<Seq<char>, PathError>(name),
{
    let texts = split_slash(name);
    lemma_first_error_none(texts);
    assert forall|i: int| 0 <= i < texts.len() implies !(#[trigger] texts[i]).contains('/')
        && !texts[i].contains('\\') by {
        assert(component_error(texts[i]) is None);
    }
    lemma_plain_names(cs, texts, true);
    lemma_plain_names(cs, texts, false);
    law_join_split(name);
    assert(slashes(0) =~= Seq::<char>::empty());
    assert(Seq::<char>::empty() + join_slash(texts) =~= name);
}

/// Without a root-directory component, a path's naming does not depend on
/// whether it must be relative.
proof fn lemma_rootless_naming(cs: Seq<PathComponent>)
    requires
        forall|i: int| 0 <= i < cs.len() ==> !(#[trigger] cs[i] is RootDir),
    ensures
        canonical_error(cs, true) == canonical_error(cs, false),
        canonical_slashes(cs, true) == canonical_slashes(cs, false),
        canonical_parts(cs, true) == canonical_parts(cs, false),
    decreases cs.len(),
{
    if cs.len() > 0 {
        assert forall|i: int| 0 <= i < cs.drop_last().len() implies !(
        #[trigger] cs.drop_last()[i] is RootDir) by {
            assert(cs.drop_last()[i] == cs[i]);
        }
        lemma_rootless_naming(cs.drop_last());
        assert(!(cs[cs.len() - 1] is RootDir));
        assert(canonical_step(cs.last(), true) == canonical_step(cs.last(), false));
    }
}

/// Law: a path that must be relative is named as the same path would be
/// without that demand, unless it has a root directory, which it is then
/// refused for (or for an earlier component).
pub proof fn law_relative_naming(cs: Seq<PathComponent>)
    ensures
        (forall|i: int| 0 <= i < cs.len() ==> !(#[trigger] cs[i] is RootDir)) ==> canonical_name(
            cs,
            true,
        ) == canonical_name(cs, false),
        (exists|i: int| 0 <= i < cs.len() && #[trigger] cs[i] is RootDir) ==> canonical_name(
            cs,
            true,
        ) is Err,
{
    if forall|i: int| 0 <= i < cs.len() ==> !(#[trigger] cs[i] is RootDir) {
        lemma_rootless_naming(cs);
    }
    if exists|i: int| 0 <= i < cs.len() && #[trigger] cs[i] is RootDir {
        let i = choose|i: int| 0 <= i < cs.len() && #[trigger] cs[i] is RootDir;
        let front = cs.take(i + 1);
        assert(front.drop_last() =~= cs.take(i));
        assert(front.last() == cs[i]);
        assert(canonical_error(front, true) is Some);
        lemma_canonical_error_extends(cs, i + 1, true);
    }
}

/// The texts of name components (empty for any other component).
pub open spec fn name_texts(cs: Seq<PathComponent>) -> Seq<Seq<char>> {
    Seq::new(
        cs.len(),
        |i: int|
            match cs[i] {
                PathComponent::Normal(Some(s)) => s@,
                _ => Seq::<char>::empty(),
            },
    )
}

/// Every component is a name whose text is an accepted export component.
pub open spec fn exportable_names(cs: Seq<PathComponent>) -> bool {
    forall|i: int|
        0 <= i < cs.len() ==> (#[trigger] cs[i] matches PathComponent::Normal(Some(s))
            && component_error(s@) is None)
}

/// Law: a sender's name lands below the export root at the place of the
/// path it names.
///
/// A relative path made of name components, each an accepted export
/// component, gets a canonical name that the receiver accepts; a target
/// that extends the root along that name's components (what
/// [`get_export_path`] gives where [`plain_target`] holds) has the root's
/// components followed by components naming the same texts as the path's,
/// in order: the root joined with the path.
pub proof fn law_sender_name_lands_below_root(root: PathBuf, rel: Seq<PathComponent>, p: PathBuf)
    requires
        rel.len() >= 1,
        exportable_names(rel),
        canonical_name(rel, true) is Ok ==> extends_by(
            root,
            p,
            split_slash(canonical_name(rel, true)->Ok_0),
        ),
    ensures
        canonical_name(rel, true) is Ok,
        export_name_error(canonical_name(rel, true)->Ok_0) is None,
        path_component_list(p).len() == path_component_list(root).len() + rel.len(),
        path_component_list(p).take(path_component_list(root).len() as int) == path_component_list(
            root,
        ),
        name_texts(path_component_list(p).skip(path_component_list(root).len() as int))
            == name_texts(rel),
        exportable_names(path_component_list(p).skip(path_component_list(root).len() as int)),
{
    let texts = name_texts(rel);
    assert forall|i: int| 0 <= i < rel.len() implies (#[trigger] rel[i] matches PathComponent::Normal(
        Some(s),
    ) && s@ == texts[i]) by {
        assert(rel[i] matches PathComponent::Normal(Some(s)) && component_error(s@) is None);
    }
    assert forall|i: int| 0 <= i < texts.len() implies !(#[trigger] texts[i]).contains('/')
        && !texts[i].contains('\\') && component_error(texts[i]) is None by {
        assert(rel[i] matches PathComponent::Normal(Some(s)) && component_error(s@) is None);
    }
    lemma_plain_names(rel, texts, true);
    assert(slashes(0) =~= Seq::<char>::empty());
    let name = join_slash(texts);
    assert(Seq::<char>::empty() + name =~= name);
    assert(canonical_name(rel, true) == Ok::<Seq<char>, PathError>(name));
    law_split_join(texts);
    lemma_first_error_none(texts);
    let rc = path_component_list(root);
    let pc = path_component_list(p);
    let tail = pc.skip(rc.len() as int);
    assert(name_texts(tail) =~= texts) by {
        assert forall|i: int| 0 <= i < texts.len() implies name_texts(tail)[i] == texts[i] by {
            assert(tail[i] == pc[rc.len() + i]);
            assert(pc[rc.len() + i] matches PathComponent::Normal(Some(s)) && s@ == texts[i]);
        }
    }
    assert forall|i: int| 0 <= i < tail.len() implies (#[trigger] tail[i] matches PathComponent::Normal(
        Some(s),
    ) && component_error(s@) is None) by {
        assert(tail[i] == pc[rc.len() + i]);
        assert(pc[rc.len() + i] matches PathComponent::Normal(Some(s)) && s@ == texts[i]);
    }
}

/// Law: an export target names back to its export name. The components
/// that a target adds below the root (what stripping the root leaves) have
/// the accepted name as their canonical name.
pub proof fn law_export_target_names_back(root: PathBuf, p: PathBuf, name: Seq<char>)
    requires
        export_name_error(name) is None,
        extends_by(root, p, split_slash(name)),
    ensures
        canonical_name(
            path_component_list(p).skip(path_component_list(root).len() as int),
            true,
        ) == Ok::<Seq<char>, PathError>(name),
{
    let rc = path_component_list(root);
    let pc = path_component_list(p);
    let tail = pc.skip(rc.len() as int);
    assert forall|i: int| 0 <= i < tail.len() implies (#[trigger] tail[i] matches PathComponent::Normal(
        Some(s),
    ) && s@ == split_slash(name)[i]) by {
        assert(tail[i] == pc[rc.len() + i]);
    }
    law_export_components_name_back(tail, name);
}

} // verus!
