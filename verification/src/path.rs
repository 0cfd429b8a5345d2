//! Unix paths as text: joining, taking apart and comparing them.
use crate::text::{same_text, substring, to_chars};
use vstd::prelude::*;

verus! {

/// Whether the path starts at the root.
pub open spec fn rooted(p: Seq<char>) -> bool {
    p.len() > 0 && p[0] == '/'
}

/// Whether the path starts with the component `.`, which alone of all `.` components counts.
pub open spec fn starts_here(p: Seq<char>) -> bool {
    p.len() > 0 && p[0] == '.' && (p.len() == 1 || p[1] == '/')
}

/// The length of the root or of the leading `.`: ordinary components come after it.
pub open spec fn body_start(p: Seq<char>) -> nat {
    if rooted(p) || starts_here(p) {
        1
    } else {
        0
    }
}

/// The length of the first `n` characters of `p` without the separators and
/// the `.` components at their end.
pub open spec fn trimmed_length(p: Seq<char>, n: nat) -> nat
    decreases n,
{
    if n <= body_start(p) {
        n
    } else if p[n - 1] == '/' {
        trimmed_length(p, (n - 1) as nat)
    } else if p[n - 1] == '.' && (n - 1 == body_start(p) || p[n - 2] == '/') {
        trimmed_length(p, (n - 1) as nat)
    } else {
        n
    }
}

/// Where the component that ends at `n` begins.
pub open spec fn component_start(p: Seq<char>, n: nat) -> nat
    decreases n,
{
    if n <= body_start(p) || p[n - 1] == '/' {
        n
    } else {
        component_start(p, (n - 1) as nat)
    }
}

/// Where the last component of the path begins and ends; both are the same
/// where the path has no component besides the root or the leading `.`.
pub open spec fn last_component(p: Seq<char>) -> (nat, nat) {
    let end = trimmed_length(p, p.len());
    (component_start(p, end), end)
}

/// The path without its last component: nothing for the root and for the empty path.
pub open spec fn parent(p: Seq<char>) -> Option<Seq<char>> {
    let (start, end) = last_component(p);
    if start < end {
        Some(p.take(trimmed_length(p, start) as int))
    } else if starts_here(p) {
        Some(Seq::empty())
    } else {
        None
    }
}

/// The last component of the path, unless it is `..`.
pub open spec fn file_name(p: Seq<char>) -> Option<Seq<char>> {
    let (start, end) = last_component(p);
    let name = p.subrange(start as int, end as int);
    if start < end && name != seq!['.', '.'] {
        Some(name)
    } else {
        None
    }
}

/// The position of the last dot of a file name, if there is one behind its first character.
pub open spec fn extension_dot(name: Seq<char>) -> Option<nat>
    decreases name.len(),
{
    if name.len() <= 1 {
        None
    } else if name.last() == '.' {
        Some((name.len() - 1) as nat)
    } else {
        extension_dot(name.drop_last())
    }
}

/// A file name without its extension.
pub open spec fn stem(name: Seq<char>) -> Seq<char> {
    match extension_dot(name) {
        Some(dot) => name.take(dot as int),
        None => name,
    }
}

/// The file name of the path without its extension.
pub open spec fn file_stem(p: Seq<char>) -> Option<Seq<char>> {
    match file_name(p) {
        Some(name) => Some(stem(name)),
        None => None,
    }
}

/// The path with the extension of its file name replaced, or added.
pub open spec fn with_extension(p: Seq<char>, extension: Seq<char>) -> Seq<char> {
    match file_stem(p) {
        Some(stem) => p.take((last_component(p).0 + stem.len()) as int) + seq!['.'] + extension,
        None => p,
    }
}

/// The path `p` seen from the directory `dir`: itself where it is rooted.
pub open spec fn join(dir: Seq<char>, p: Seq<char>) -> Seq<char> {
    if rooted(p) {
        p
    } else if dir.len() == 0 || dir.last() == '/' {
        dir + p
    } else {
        dir + seq!['/'] + p
    }
}

/// The components of `p` that lie before position `n`, a leading `.` left out:
/// what stands between separators, empty pieces and `.` left out.
pub open spec fn components_until(p: Seq<char>, n: nat) -> Seq<Seq<char>>
    decreases n,
{
    let end = trimmed_length(p, n);
    let start = component_start(p, end);
    if end > n || start >= end {
        Seq::empty()
    } else {
        components_until(p, start).push(p.subrange(start as int, end as int))
    }
}

/// What two texts share that denote the same path.
pub struct PathKey {
    pub rooted: bool,
    pub here: bool,
    pub components: Seq<Seq<char>>,
}

/// A path as the sequence of its components. Repeated and trailing separators
/// do not matter, nor does a `.` other than a leading one.
pub open spec fn key(p: Seq<char>) -> PathKey {
    PathKey {
        rooted: rooted(p),
        here: starts_here(p),
        components: components_until(p, p.len()),
    }
}

/// An optional path as the sequence of its components.
pub open spec fn optional_key(p: Option<String>) -> Option<PathKey> {
    match p {
        Some(s) => Some(key(s@)),
        None => None,
    }
}

/// Whether a text can be the name of one file.
pub open spec fn plain(name: Seq<char>) -> bool {
    &&& name.len() > 0
    &&& name != seq!['.']
    &&& !name.contains('/')
}

/// The extension of the path's file name, if it has one.
pub open spec fn extension(p: Seq<char>) -> Option<Seq<char>> {
    match file_name(p) {
        Some(name) => match extension_dot(name) {
            Some(dot) => Some(name.skip(dot as int + 1)),
            None => None,
        },
        None => None,
    }
}

/// What stands before the name of a file in a directory.
spec fn lead(dir: Seq<char>) -> Seq<char> {
    if dir.len() == 0 || dir.last() == '/' {
        dir
    } else {
        dir.push('/')
    }
}

/// Trimming leaves nothing more to trim, and keeps the root and a leading `.`.
proof fn lemma_trimmed(p: Seq<char>, n: nat)
    requires
        n <= p.len(),
    ensures
        trimmed_length(p, n) <= n,
        n >= body_start(p) ==> trimmed_length(p, n) >= body_start(p),
        trimmed_length(p, trimmed_length(p, n)) == trimmed_length(p, n),
    decreases n,
{
    if n > 0 {
        lemma_trimmed(p, (n - 1) as nat);
    }
}

/// A component has no separator in it, and begins behind one or where
/// components may begin.
proof fn lemma_component(p: Seq<char>, n: nat)
    requires
        n <= p.len(),
    ensures
        component_start(p, n) <= n,
        n >= body_start(p) ==> component_start(p, n) >= body_start(p),
        component_start(p, n) <= body_start(p) || p[component_start(p, n) - 1] == '/',
        forall|j: int| component_start(p, n) <= j < n ==> p[j] != '/',
    decreases n,
{
    if !(n <= body_start(p) || p[n - 1] == '/') {
        lemma_component(p, (n - 1) as nat);
    }
}

/// Where a stretch without separators begins behind one, or where components
/// may begin, a component begins.
proof fn lemma_component_is(p: Seq<char>, start: nat, n: nat)
    requires
        body_start(p) <= start <= n <= p.len(),
        start == body_start(p) || p[start - 1] == '/',
        forall|j: int| start <= j < n ==> p[j] != '/',
    ensures
        component_start(p, n) == start,
    decreases n,
{
    if n > start {
        lemma_component_is(p, start, (n - 1) as nat);
    }
}

/// What lies before a position rests on what stands before it alone.
#[verifier::spinoff_prover]
proof fn lemma_prefix(p: Seq<char>, q: Seq<char>, n: nat)
    requires
        n <= p.len(),
        n <= q.len(),
        body_start(p) == body_start(q),
        forall|j: int| 0 <= j < n ==> p[j] == q[j],
    ensures
        trimmed_length(p, n) == trimmed_length(q, n),
        component_start(p, n) == component_start(q, n),
        components_until(p, n) == components_until(q, n),
    decreases n,
{
    if n > 0 {
        lemma_prefix(p, q, (n - 1) as nat);
    }
    lemma_trimmed(p, n);
    let end = trimmed_length(p, n);
    assert(trimmed_length(q, n) == end);
    if end < n {
        lemma_prefix(p, q, end);
    }
    lemma_component(p, end);
    let start = component_start(p, end);
    assert(component_start(q, end) == start);
    if start < end {
        lemma_prefix(p, q, start);
        assert(p.subrange(start as int, end as int) =~= q.subrange(start as int, end as int));
    }
}

/// A name behind what may stand before one is the path's last component.
proof fn lemma_named(d: Seq<char>, name: Seq<char>)
    requires
        d.len() == 0 || d.last() == '/',
        plain(name),
    ensures
        body_start(d + name) <= d.len(),
        last_component(d + name) == (d.len(), (d + name).len()),
        components_until(d + name, (d + name).len()) == components_until(
            d + name,
            d.len(),
        ).push(name),
{
    let p = d + name;
    assert forall|j: int| d.len() <= j < p.len() implies p[j] != '/' by {
        assert(p[j] == name[j - d.len()]);
        assert(name.contains(name[j - d.len()]));
    }
    if d.len() == 0 {
        assert(p =~= name);
        if name.len() == 1 && name[0] == '.' {
            assert(name =~= seq!['.']);
        }
    } else {
        assert(p[d.len() - 1] == '/');
    }
    if p.last() == '.' && name.len() == 1 {
        assert(name[0] == '.');
        assert(name =~= seq!['.']);
    }
    assert(p.last() != '/');
    assert(trimmed_length(p, p.len()) == p.len());
    lemma_component_is(p, d.len(), p.len());
    assert(p.subrange(d.len() as int, p.len() as int) =~= name);
}

/// A path that joins a directory and a name.
proof fn lemma_joined(dir: Seq<char>, name: Seq<char>)
    requires
        plain(name),
    ensures
        join(dir, name) == lead(dir) + name,
{
    assert(name.contains(name[0]));
    assert(join(dir, name) =~= lead(dir) + name);
}

/// The names of two files in one directory are the last components of their
/// paths, and the rest of the paths is the same.
pub proof fn lemma_in_one_directory(dir: Seq<char>, a: Seq<char>, b: Seq<char>)
    requires
        plain(a),
        plain(b),
    ensures
        (key(join(dir, a)) == key(join(dir, b))) == (a == b),
{
    lemma_joined(dir, a);
    lemma_joined(dir, b);
    lemma_named(lead(dir), a);
    lemma_named(lead(dir), b);
    let p = join(dir, a);
    let q = join(dir, b);
    if key(p) == key(q) {
        assert(key(p).components.last() == a);
        assert(key(q).components.last() == b);
    }
}

/// The file name of a path that joins a directory and a name is that name, and
/// in the path's directory any other file is the same as in the directory itself.
#[verifier::spinoff_prover]
#[verifier::rlimit(30)]
pub proof fn lemma_beside(dir: Seq<char>, name: Seq<char>, other: Seq<char>)
    requires
        plain(name),
        name != seq!['.', '.'],
        plain(other),
    ensures
        file_name(join(dir, name)) == Some(name),
        parent(join(dir, name)) is Some,
        key(join(parent(join(dir, name))->0, other)) == key(join(dir, other)),
{
    let d = lead(dir);
    let p = d + name;
    lemma_joined(dir, name);
    lemma_joined(dir, other);
    lemma_named(d, name);
    lemma_named(d, other);
    assert(p.subrange(d.len() as int, p.len() as int) =~= name);
    let t = trimmed_length(p, d.len());
    lemma_trimmed(p, d.len());
    let up = p.take(t as int);
    assert(parent(p) == Some(up));
    lemma_joined(up, other);
    let e = lead(up);
    lemma_named(e, other);
    let q1 = e + other;
    let q2 = d + other;
    if d.len() == 0 {
        assert(up =~= d);
        assert(q1 =~= q2);
    } else {
        assert(p[0] == d[0] && q2[0] == d[0]);
        assert(d[d.len() - 1] == '/');
        if d[0] == '.' {
            assert(d.len() >= 2);
            assert(p[1] == d[1] && q2[1] == d[1]);
        }
        assert(rooted(p) == rooted(q2));
        if !rooted(p) && d.len() >= 2 {
            assert(p[1] == d[1] && q2[1] == d[1]);
        }
        assert(starts_here(p) == starts_here(q2));
        lemma_trimmed_start(p, d.len());
        assert(t >= 1);
        assert(q1[0] == up[0] && up[0] == p[0]);
        assert(rooted(q1) == rooted(p));
        if t >= 2 {
            assert(q1[1] == up[1] && up[1] == p[1]);
        } else if p[0] != '/' {
            assert(up.last() == p[0]);
            assert(q1[1] == '/');
            assert(p[1] == '/');
        }
        assert(starts_here(q1) == starts_here(p));
        assert forall|j: int| 0 <= j < t implies q1[j] == q2[j] && q1[j] == p[j] by {
            assert(up[j] == p[j] && p[j] == d[j]);
        }
        assert forall|j: int| 0 <= j < d.len() implies p[j] == q2[j] by {
            assert(p[j] == d[j]);
        }
        lemma_prefix(p, q2, d.len());
        lemma_prefix(q1, q2, t);
        lemma_prefix(p, q2, t);
        assert(trimmed_length(q2, t) == t);
        assert(trimmed_length(q1, t) == t);
        assert(components_until(q2, d.len()) == components_until(q2, t));
        if e.len() > t {
            assert(e[t as int] == '/');
            assert(q1[t as int] == '/');
            assert(trimmed_length(q1, e.len()) == t);
        }
        assert(components_until(q1, e.len()) == components_until(q1, t));
    }
}

/// Trimming what ends with a separator leaves something; where that is a single
/// character other than the root, a separator follows it.
proof fn lemma_trimmed_start(p: Seq<char>, n: nat)
    requires
        0 < n <= p.len(),
        p[n - 1] == '/',
    ensures
        trimmed_length(p, n) >= 1,
        trimmed_length(p, n) == 1 && p[0] != '/' ==> p[1] == '/',
    decreases n,
{
    lemma_trimmed(p, n);
    if n >= 2 {
        if p[n - 2] == '/' {
            lemma_trimmed_start(p, (n - 1) as nat);
        } else if n >= 3 && p[n - 2] == '.' && p[n - 3] == '/' {
            lemma_trimmed_start(p, (n - 2) as nat);
        }
    }
}

/// A path whose file name got another extension is another path in the same
/// directory, unless it had that extension before.
#[verifier::spinoff_prover]
#[verifier::rlimit(30)]
pub proof fn lemma_other_extension(p: Seq<char>, ending: Seq<char>)
    requires
        file_name(p) is Some,
        extension(p) != Some(ending),
        ending.len() > 0,
        !ending.contains('/'),
        ending.last() != '.',
    ensures
        key(with_extension(p, ending)) != key(p),
        parent(with_extension(p, ending)) == parent(p),
{
    let (start, end) = last_component(p);
    lemma_trimmed(p, p.len());
    lemma_component(p, end);
    let name = p.subrange(start as int, end as int);
    lemma_stem(name);
    let base = stem(name);
    let q = with_extension(p, ending);
    let head = p.take((start + base.len()) as int);
    assert(q == head + seq!['.'] + ending);
    assert forall|j: int| 0 <= j < start + base.len() implies q[j] == p[j] by {
        assert(head[j] == p[j]);
    }
    assert(q[0] == p[0]);
    assert(q[(start + base.len()) as int] == '.');
    if start + base.len() >= 2 {
        assert(q[1] == p[1]);
    }
    if p.len() == 1 && p[0] == '.' {
        assert(end <= 1 && start >= 1);
    }
    assert(body_start(p) == body_start(q));
    assert forall|j: int| start <= j < q.len() implies q[j] != '/' by {
        if j > start + base.len() {
            assert(q[j] == ending[j - start - base.len() - 1]);
            assert(ending.contains(q[j]));
        }
    }
    assert(q.last() == ending.last());
    assert(ending.contains(ending.last()));
    assert(trimmed_length(q, q.len()) == q.len());
    if start > body_start(q) {
        assert(q[start - 1] == p[start - 1]);
    }
    lemma_component_is(q, start, q.len());
    lemma_prefix(p, q, start);
    lemma_trimmed(p, start);
    let renamed = q.subrange(start as int, q.len() as int);
    assert(renamed =~= base + seq!['.'] + ending);
    assert(key(q).components.last() == renamed);
    assert(key(p).components.last() == name);
    if renamed == name {
        match extension_dot(name) {
            Some(dot) => {
                assert(name.skip(dot as int + 1) =~= renamed.skip(base.len() as int + 1));
                assert(renamed.skip(base.len() as int + 1) =~= ending);
            },
            None => {
                assert(renamed.len() > base.len());
            },
        }
    }
    assert(q.take(trimmed_length(q, start) as int) =~= p.take(trimmed_length(p, start) as int));
}

/// The last dot of a file name stands behind its first character.
proof fn lemma_stem(name: Seq<char>)
    requires
        name.len() > 0,
    ensures
        extension_dot(name) is Some ==> 0 < extension_dot(name)->0 < name.len()
            && name[extension_dot(name)->0 as int] == '.',
        0 < stem(name).len() <= name.len(),
        stem(name) == name.take(stem(name).len() as int),
    decreases name.len(),
{
    if name.len() > 1 && name.last() != '.' {
        lemma_stem(name.drop_last());
    }
    assert(name.take(name.len() as int) =~= name);
}

/// Whether the path starts at the root.
pub fn is_absolute(p: &str) -> (r: bool)
    ensures
        r == rooted(p@),
{
    let chars = to_chars(p);
    chars.len() > 0 && chars[0] == '/'
}

/// The path `p` seen from the directory `dir`: itself where it is rooted.
pub fn join_path(dir: &str, p: &str) -> (r: String)
    ensures
        r@ == join(dir@, p@),
{
    if is_absolute(p) {
        return p.to_owned();
    }
    let mut out = dir.to_owned();
    let chars = to_chars(dir);
    if chars.len() > 0 && chars[chars.len() - 1] != '/' {
        out.push('/');
    }
    out.append(p);
    assert(out@ =~= join(dir@, p@));
    out
}

fn body_start_of(chars: &Vec<char>) -> (r: usize)
    ensures
        r == body_start(chars@),
        r <= chars@.len(),
{
    if chars.len() == 0 {
        0
    } else if chars[0] == '/' {
        1
    } else if chars[0] == '.' && (chars.len() == 1 || chars[1] == '/') {
        1
    } else {
        0
    }
}

fn trimmed_length_of(chars: &Vec<char>, n: usize) -> (r: usize)
    requires
        n <= chars@.len(),
    ensures
        r == trimmed_length(chars@, n as nat),
        r <= n,
{
    let start = body_start_of(chars);
    let mut i: usize = n;
    while i > start && (chars[i - 1] == '/' || (chars[i - 1] == '.' && (i - 1 == start || chars[i
        - 2] == '/')))
        invariant
            start == body_start(chars@),
            i <= n <= chars@.len(),
            trimmed_length(chars@, i as nat) == trimmed_length(chars@, n as nat),
        decreases i,
    {
        i = i - 1;
    }
    i
}

fn component_start_of(chars: &Vec<char>, n: usize) -> (r: usize)
    requires
        n <= chars@.len(),
    ensures
        r == component_start(chars@, n as nat),
        r <= n,
{
    let start = body_start_of(chars);
    let mut i: usize = n;
    while i > start && chars[i - 1] != '/'
        invariant
            start == body_start(chars@),
            i <= n <= chars@.len(),
            component_start(chars@, i as nat) == component_start(chars@, n as nat),
        decreases i,
    {
        i = i - 1;
    }
    i
}

/// Where the last component of the path begins and ends.
fn last_component_of(chars: &Vec<char>) -> (r: (usize, usize))
    ensures
        r.0 <= r.1 <= chars@.len(),
        (r.0 as nat, r.1 as nat) == last_component(chars@),
{
    let end = trimmed_length_of(chars, chars.len());
    let start = component_start_of(chars, end);
    (start, end)
}

/// The path without its last component: nothing for the root and for the empty path.
pub fn parent_path(p: &str) -> (r: Option<String>)
    ensures
        crate::text::optional_text(r) == parent(p@),
{
    let chars = to_chars(p);
    let (start, end) = last_component_of(&chars);
    if start < end {
        let n = trimmed_length_of(&chars, start);
        Some(substring(&chars, 0, n))
    } else if chars.len() > 0 && chars[0] == '.' && (chars.len() == 1 || chars[1] == '/') {
        Some(String::new())
    } else {
        None
    }
}

/// The last component of a path given by its characters, unless it is `..`.
pub fn file_name_of(chars: &Vec<char>) -> (r: Option<String>)
    ensures
        crate::text::optional_text(r) == file_name(chars@),
{
    let (start, end) = last_component_of(chars);
    if start >= end {
        return None;
    }
    let name = substring(chars, start, end);
    if end - start == 2 && chars[start] == '.' && chars[start + 1] == '.' {
        assert(name@ =~= seq!['.', '.']);
        None
    } else {
        assert(name@ != seq!['.', '.']) by {
            assert(name@.len() == end - start);
            if end - start == 2 {
                assert(name@[0] == chars@[start as int]);
                assert(name@[1] == chars@[start as int + 1]);
                assert(seq!['.', '.'][0] == '.' && seq!['.', '.'][1] == '.');
            }
        }
        Some(name)
    }
}

/// The length of a file name without its extension.
fn stem_length(chars: &Vec<char>, start: usize, end: usize) -> (r: usize)
    requires
        start <= end <= chars@.len(),
    ensures
        r == stem(chars@.subrange(start as int, end as int)).len(),
        r <= end - start,
        stem(chars@.subrange(start as int, end as int)) == chars@.subrange(
            start as int,
            start as int + r,
        ),
{
    let ghost name = chars@.subrange(start as int, end as int);
    assert(name.take(end - start) =~= name);
    let mut i: usize = end;
    while i > start && i - start > 1
        invariant
            start <= i <= end <= chars@.len(),
            name == chars@.subrange(start as int, end as int),
            extension_dot(name) == extension_dot(name.take(i - start)),
        decreases i,
    {
        assert(name.take(i - start).drop_last() =~= name.take(i - start - 1));
        if chars[i - 1] == '.' {
            assert(name.take(i - start).last() == '.');
            assert(name.take(i - 1 - start) =~= chars@.subrange(start as int, i - 1));
            return i - 1 - start;
        }
        i = i - 1;
    }
    end - start
}

/// The file name of the path without its extension.
pub fn file_stem_of(p: &str) -> (r: Option<String>)
    ensures
        crate::text::optional_text(r) == file_stem(p@),
{
    let chars = to_chars(p);
    let (start, end) = last_component_of(&chars);
    match file_name_of(&chars) {
        None => None,
        Some(_) => {
            let n = stem_length(&chars, start, end);
            Some(substring(&chars, start, start + n))
        },
    }
}

/// The path with the extension of its file name replaced, or added.
pub fn replace_extension(p: &str, extension: &str) -> (r: String)
    ensures
        r@ == with_extension(p@, extension@),
{
    let chars = to_chars(p);
    let (start, end) = last_component_of(&chars);
    match file_name_of(&chars) {
        None => p.to_owned(),
        Some(_) => {
            let n = stem_length(&chars, start, end);
            let mut out = substring(&chars, 0, start + n);
            assert(out@ =~= p@.take(start + n));
            out.push('.');
            out.append(extension);
            assert(out@ =~= p@.take(start + n) + seq!['.'] + extension@);
            out
        },
    }
}

/// The components of the path, a leading `.` left out.
pub fn path_components(p: &str) -> (r: Vec<String>)
    ensures
        crate::text::texts(r@) == components_until(p@, p@.len()),
{
    let chars = to_chars(p);
    let mut ranges: Vec<(usize, usize)> = Vec::new();
    let mut n: usize = chars.len();
    let ghost all = components_until(p@, p@.len());
    let mut end = trimmed_length_of(&chars, n);
    let mut start = component_start_of(&chars, end);
    assert(components_until(p@, n as nat) + Seq::<Seq<char>>::empty() =~= all);
    assert(crate::text::pieces(p@, ranges@).reverse() =~= Seq::<Seq<char>>::empty());
    while start < end
        invariant
            chars@ == p@,
            n <= chars@.len(),
            end <= n,
            start <= end,
            end == trimmed_length(p@, n as nat),
            start == component_start(p@, end as nat),
            forall|i: int|
                0 <= i < ranges@.len() ==> (#[trigger] ranges@[i]).0 <= ranges@[i].1
                    <= chars@.len(),
            components_until(p@, n as nat) + crate::text::pieces(p@, ranges@).reverse() == all,
        decreases start, end,
    {
        let ghost before = ranges@;
        ranges.push((start, end));
        proof {
            let piece = p@.subrange(start as int, end as int);
            assert(crate::text::pieces(p@, ranges@) =~= crate::text::pieces(p@, before).push(
                piece,
            ));
            assert(crate::text::pieces(p@, ranges@).reverse() =~= seq![piece]
                + crate::text::pieces(p@, before).reverse());
            assert(components_until(p@, n as nat) == components_until(p@, start as nat).push(
                piece,
            ));
            assert(components_until(p@, n as nat) + crate::text::pieces(p@, before).reverse()
                =~= components_until(p@, start as nat) + crate::text::pieces(
                p@,
                ranges@,
            ).reverse());
        }
        n = start;
        end = trimmed_length_of(&chars, n);
        start = component_start_of(&chars, end);
    }
    assert(components_until(p@, n as nat) =~= Seq::<Seq<char>>::empty());
    assert(crate::text::pieces(p@, ranges@).reverse() =~= all);
    let mut out: Vec<String> = Vec::new();
    let mut i: usize = ranges.len();
    while i > 0
        invariant
            chars@ == p@,
            i <= ranges@.len(),
            forall|j: int|
                0 <= j < ranges@.len() ==> (#[trigger] ranges@[j]).0 <= ranges@[j].1
                    <= chars@.len(),
            crate::text::pieces(p@, ranges@).reverse() == all,
            crate::text::texts(out@) == all.take(ranges@.len() - i),
        decreases i,
    {
        i = i - 1;
        let ghost before = out@;
        let (a, b) = ranges[i];
        out.push(substring(&chars, a, b));
        proof {
            assert(all[ranges@.len() - i - 1] == crate::text::pieces(p@, ranges@)[i as int]);
            assert(crate::text::texts(out@) =~= crate::text::texts(before).push(
                out@.last()@,
            ));
            assert(all.take(ranges@.len() - i) =~= all.take(ranges@.len() - i - 1).push(
                out@.last()@,
            ));
        }
    }
    assert(all.take(ranges@.len() as int) =~= all);
    out
}

/// Whether two texts denote the same path, component by component.
pub fn same_path(a: &str, b: &str) -> (r: bool)
    ensures
        r == (key(a@) == key(b@)),
{
    let x = to_chars(a);
    let y = to_chars(b);
    let x_rooted = x.len() > 0 && x[0] == '/';
    let y_rooted = y.len() > 0 && y[0] == '/';
    let x_here = x.len() > 0 && x[0] == '.' && (x.len() == 1 || x[1] == '/');
    let y_here = y.len() > 0 && y[0] == '.' && (y.len() == 1 || y[1] == '/');
    if x_rooted != y_rooted || x_here != y_here {
        return false;
    }
    let p = path_components(a);
    let q = path_components(b);
    proof {
        assert(crate::text::texts(p@).len() == p@.len());
        assert(crate::text::texts(q@).len() == q@.len());
    }
    if p.len() != q.len() {
        return false;
    }
    let mut i: usize = 0;
    while i < p.len()
        invariant
            i <= p@.len(),
            p@.len() == q@.len(),
            crate::text::texts(p@) == components_until(a@, a@.len()),
            crate::text::texts(q@) == components_until(b@, b@.len()),
            forall|j: int| 0 <= j < i ==> p@[j]@ == q@[j]@,
        decreases p.len() - i,
    {
        if !same_text(p[i].as_str(), q[i].as_str()) {
            assert(crate::text::texts(p@)[i as int] != crate::text::texts(q@)[i as int]);
            return false;
        }
        i = i + 1;
    }
    assert(crate::text::texts(p@) =~= crate::text::texts(q@));
    true
}

/// Whether two optional paths are both absent, or present and the same.
pub fn same_optional_path(a: &Option<String>, b: &Option<String>) -> (r: bool)
    ensures
        r == (optional_key(*a) == optional_key(*b)),
{
    match (a, b) {
        (Some(x), Some(y)) => same_path(x.as_str(), y.as_str()),
        (None, None) => true,
        _ => false,
    }
}

/// A path that starts at the root is the same from everywhere; any other comes
/// behind the directory that it is seen from, with one separator between.
pub proof fn law_join(dir: Seq<char>, p: Seq<char>)
    ensures
        p.len() > 0 && p[0] == '/' ==> join(dir, p) == p,
        !(p.len() > 0 && p[0] == '/') && dir.len() > 0 && dir.last() != '/' ==> join(dir, p)
            == dir + seq!['/'] + p,
        !(p.len() > 0 && p[0] == '/') && (dir.len() == 0 || dir.last() == '/') ==> join(dir, p)
            == dir + p,
{
}

/// A file in a directory has the directory as its parent, its name as its file
/// name, and the components of the directory and then its name as its components.
#[verifier::spinoff_prover]
pub proof fn law_parent(dir: Seq<char>, a: Seq<char>, b: Seq<char>)
    requires
        plain(a),
        plain(b),
    ensures
        parent(join(join(dir, a), b)) == Some(join(dir, a)),
        b != seq!['.', '.'] ==> file_name(join(join(dir, a), b)) == Some(b),
        key(join(join(dir, a), b)).components == key(join(dir, a)).components.push(b),
        key(join(join(dir, a), b)).rooted == key(join(dir, a)).rooted,
{
    let d = join(dir, a);
    lemma_joined(dir, a);
    lemma_named(lead(dir), a);
    lemma_joined(d, b);
    assert(a.contains(a.last()));
    assert(d.last() == a.last());
    let up = d.push('/');
    assert(lead(d) == up);
    lemma_named(up, b);
    let p = up + b;
    assert(join(d, b) == p);
    let n = d.len();
    assert forall|j: int| 0 <= j < n implies p[j] == d[j] by {
        assert(up[j] == d[j]);
    }
    assert(p[0] == d[0]);
    assert(p[n as int] == '/');
    if n >= 2 {
        assert(p[1] == d[1]);
    } else {
        assert(lead(dir).len() == 0);
        assert(d =~= a);
        if d[0] == '.' {
            assert(a =~= seq!['.']);
        }
    }
    assert(body_start(p) == body_start(d));
    lemma_prefix(p, d, n);
    assert(trimmed_length(d, n) == n);
    assert(trimmed_length(p, up.len()) == n);
    assert(p.take(n as int) =~= d);
    assert(components_until(p, up.len()) == components_until(p, n));
    assert(p.subrange(up.len() as int, p.len() as int) =~= b);
}

/// A separator at the end of a path makes it no other path.
pub proof fn law_trailing_separator(p: Seq<char>)
    requires
        p.len() > 0,
    ensures
        key(p.push('/')) == key(p),
{
    let q = p.push('/');
    assert(q[0] == p[0]);
    if p.len() >= 2 {
        assert(q[1] == p[1]);
    }
    assert(body_start(q) == body_start(p));
    lemma_prefix(p, q, p.len());
    assert(q[p.len() as int] == '/');
    lemma_trimmed(q, p.len());
    assert(trimmed_length(q, q.len()) == trimmed_length(q, p.len()));
}

/// The extension of a file is what stands behind the last dot of its name; in
/// its place another one can be put.
#[verifier::spinoff_prover]
pub proof fn law_extension(
    d: Seq<char>,
    base: Seq<char>,
    ending: Seq<char>,
    other: Seq<char>,
)
    requires
        d.len() == 0 || d.last() == '/',
        base.len() > 0,
        !base.contains('/'),
        ending.len() > 0,
        !ending.contains('/'),
        !ending.contains('.'),
    ensures
        ({
            let p = d + base + seq!['.'] + ending;
            &&& file_name(p) == Some(base + seq!['.'] + ending)
            &&& file_stem(p) == Some(base)
            &&& extension(p) == Some(ending)
            &&& with_extension(p, other) == d + base + seq!['.'] + other
        }),
{
    let name = base + seq!['.'] + ending;
    let p = d + base + seq!['.'] + ending;
    assert(p =~= d + name);
    assert(name.len() >= 3);
    assert forall|i: int| 0 <= i < name.len() implies name[i] != '/' by {
        if i < base.len() {
            assert(base.contains(base[i]));
        } else if i > base.len() {
            assert(name[i] == ending[i - base.len() - 1]);
            assert(ending.contains(name[i]));
        }
    }
    lemma_named(d, name);
    assert(p.subrange(d.len() as int, p.len() as int) =~= name);
    lemma_extension_dot(base, ending);
    assert(name.take(base.len() as int) =~= base);
    assert(name.skip(base.len() as int + 1) =~= ending);
    assert(p.take((d.len() + base.len()) as int) =~= d + base);
}

/// The last dot of a name is the one behind which there is none.
proof fn lemma_extension_dot(base: Seq<char>, ending: Seq<char>)
    requires
        base.len() > 0,
        !ending.contains('.'),
    ensures
        extension_dot(base + seq!['.'] + ending) == Some(base.len()),
    decreases ending.len(),
{
    let name = base + seq!['.'] + ending;
    if ending.len() > 0 {
        assert(ending.contains(ending.last()));
        assert(name.last() == ending.last());
        let less = ending.drop_last();
        assert(name.drop_last() =~= base + seq!['.'] + less);
        assert(!less.contains('.')) by {
            if less.contains('.') {
                let i = less.index_of('.');
                assert(ending[i] == '.');
            }
        }
        lemma_extension_dot(base, less);
    } else {
        assert(name.last() == '.');
    }
}

/// The name of a file in a directory is the last component of its path.
pub proof fn lemma_last_component(dir: Seq<char>, name: Seq<char>)
    requires
        plain(name),
    ensures
        key(join(dir, name)).components.len() > 0,
        key(join(dir, name)).components.last() == name,
{
    lemma_joined(dir, name);
    lemma_named(lead(dir), name);
}

} // verus!
