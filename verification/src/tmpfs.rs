//! An in-memory file system for `/tmp` and `/run`: files live directly under one of the
//! two roots, each with a unique path.
use vstd::prelude::*;
use crate::fat::{chars_eq, copy_chars, utf8_len, utf8_char_len};

verus! {

pub const MAX_TMPFS_FILES: usize = 256;

#[derive(Copy, Clone, Debug, PartialEq, Eq, Structural)]
pub enum TmpfsNodeKind {
    Directory,
    File,
}

#[derive(Copy, Clone, Debug)]
pub struct TmpfsNodeInfo {
    pub size: usize,
}

#[derive(Copy, Clone, Debug)]
pub struct TmpfsSummary {
    pub directory_count: usize,
    pub file_count: usize,
    pub entry_count: usize,
    pub total_bytes: usize,
}

pub struct TmpfsOpenFile {
    pub path: Vec<char>,
    pub content: Vec<u8>,
}

#[derive(Copy, Clone, Debug, PartialEq, Eq, Structural)]
pub enum TmpfsError {
    AlreadyInitialized,
    NotInitialized,
    InvalidPath,
    NotFound,
    IsDirectory,
    FileLimitReached,
}

impl TmpfsError {
    pub fn as_str(self) -> (s: &'static str)
        ensures
            self == TmpfsError::AlreadyInitialized ==> s@ == "tmpfs is already initialized"@,
            self == TmpfsError::NotInitialized ==> s@ == "tmpfs is not initialized"@,
            self == TmpfsError::InvalidPath ==> s@ == "tmpfs path is invalid"@,
            self == TmpfsError::NotFound ==> s@ == "tmpfs entry not found"@,
            self == TmpfsError::IsDirectory ==> s@ == "tmpfs path resolves to a directory"@,
            self == TmpfsError::FileLimitReached ==> s@ == "tmpfs file limit reached"@,
    {
        match self {
            TmpfsError::AlreadyInitialized => "tmpfs is already initialized",
            TmpfsError::NotInitialized => "tmpfs is not initialized",
            TmpfsError::InvalidPath => "tmpfs path is invalid",
            TmpfsError::NotFound => "tmpfs entry not found",
            TmpfsError::IsDirectory => "tmpfs path resolves to a directory",
            TmpfsError::FileLimitReached => "tmpfs file limit reached",
        }
    }
}

pub open spec fn tmp_root() -> Seq<char> {
    seq!['/', 't', 'm', 'p']
}

pub open spec fn run_root() -> Seq<char> {
    seq!['/', 'r', 'u', 'n']
}

/// Whether a path is one of the two roots.
pub open spec fn is_root(p: Seq<char>) -> bool {
    p == tmp_root() || p == run_root()
}

pub open spec fn has_prefix(p: Seq<char>, q: Seq<char>) -> bool {
    p.len() >= q.len() && p.subrange(0, q.len() as int) == q
}

/// Whether a path is one this file system answers for.
pub open spec fn handles(p: Seq<char>) -> bool {
    is_root(p) || has_prefix(p, tmp_root().push('/')) || has_prefix(p, run_root().push('/'))
}

fn tmp_root_vec() -> (v: Vec<char>)
    ensures
        v@ == tmp_root(),
{
    let mut v: Vec<char> = Vec::new();
    v.push('/');
    v.push('t');
    v.push('m');
    v.push('p');
    assert(v@ =~= tmp_root());
    v
}

fn run_root_vec() -> (v: Vec<char>)
    ensures
        v@ == run_root(),
{
    let mut v: Vec<char> = Vec::new();
    v.push('/');
    v.push('r');
    v.push('u');
    v.push('n');
    assert(v@ =~= run_root());
    v
}

/// Whether `p` begins with `q`.
pub fn starts_with(p: &[char], q: &[char]) -> (b: bool)
    ensures
        b == has_prefix(p@, q@),
{
    if p.len() < q.len() {
        return false;
    }
    let mut i: usize = 0;
    while i < q.len()
        invariant
            i <= q@.len(),
            q@.len() <= p@.len(),
            forall|k: int| 0 <= k < i ==> p@[k] == q@[k],
        decreases q@.len() - i,
    {
        if p[i] != q[i] {
            assert(p@.subrange(0, q@.len() as int)[i as int] != q@[i as int]);
            return false;
        }
        i = i + 1;
    }
    assert(p@.subrange(0, q@.len() as int) =~= q@);
    true
}

fn is_root_path(p: &[char]) -> (b: bool)
    ensures
        b == is_root(p@),
{
    let t = tmp_root_vec();
    let r = run_root_vec();
    chars_eq(p, t.as_slice()) || chars_eq(p, r.as_slice())
}

/// Whether a path is `/tmp`, `/run`, or below one of them.
pub fn handles_path(path: &[char]) -> (b: bool)
    ensures
        b == handles(path@),
{
    let mut t = tmp_root_vec();
    let mut r = run_root_vec();
    if chars_eq(path, t.as_slice()) || chars_eq(path, r.as_slice()) {
        return true;
    }
    t.push('/');
    r.push('/');
    starts_with(path, t.as_slice()) || starts_with(path, r.as_slice())
}

/// The stack of segments after one more segment: empty and `.` change nothing, `..` drops
/// the last one (failing at the top), anything else is pushed.
pub open spec fn apply_segment(stack: Seq<Seq<char>>, seg: Seq<char>) -> Option<Seq<Seq<char>>> {
    if seg.len() == 0 || seg == seq!['.'] {
        Some(stack)
    } else if seg == seq!['.', '.'] {
        if stack.len() == 0 { None } else { Some(stack.drop_last()) }
    } else {
        Some(stack.push(seg))
    }
}

/// The segments a path resolves to, read from index `i` on with `stack` resolved so far and
/// `cur` the segment being read.
pub open spec fn resolve_from(p: Seq<char>, i: int, stack: Seq<Seq<char>>, cur: Seq<char>) -> Option<Seq<Seq<char>>>
    decreases p.len() - i,
{
    if i >= p.len() {
        apply_segment(stack, cur)
    } else if p[i] == '/' {
        match apply_segment(stack, cur) {
            Some(st) => resolve_from(p, i + 1, st, Seq::empty()),
            None => None,
        }
    } else {
        resolve_from(p, i + 1, stack, cur.push(p[i]))
    }
}

/// Segments joined as `/a/b/c`.
pub open spec fn join_segments(stack: Seq<Seq<char>>) -> Seq<char>
    decreases stack.len(),
{
    if stack.len() == 0 {
        Seq::empty()
    } else {
        join_segments(stack.drop_last()).push('/') + stack.last()
    }
}

/// The normal form of an absolute path, or `None` when it is relative or climbs above `/`.
pub open spec fn normalized(p: Seq<char>) -> Option<Seq<char>> {
    if p.len() == 0 || p[0] != '/' {
        None
    } else {
        match resolve_from(p, 0, Seq::empty(), Seq::empty()) {
            None => None,
            Some(st) => if st.len() == 0 { Some(seq!['/']) } else { Some(join_segments(st)) },
        }
    }
}

pub open spec fn stack_view(stack: Seq<Vec<char>>) -> Seq<Seq<char>> {
    stack.map_values(|v: Vec<char>| v@)
}

fn is_dot(seg: &Vec<char>) -> (b: bool)
    ensures
        b == (seg@ == seq!['.']),
{
    let r = seg.len() == 1 && seg[0] == '.';
    assert(r ==> seg@ =~= seq!['.']);
    r
}

fn is_dot_dot(seg: &Vec<char>) -> (b: bool)
    ensures
        b == (seg@ == seq!['.', '.']),
{
    let r = seg.len() == 2 && seg[0] == '.' && seg[1] == '.';
    assert(r ==> seg@ =~= seq!['.', '.']);
    r
}

/// Applies one segment to the stack; false when `..` climbs above the top.
fn push_segment(stack: &mut Vec<Vec<char>>, seg: Vec<char>) -> (ok: bool)
    ensures
        ok == (apply_segment(stack_view(old(stack)@), seg@) is Some),
        ok ==> apply_segment(stack_view(old(stack)@), seg@) == Some(stack_view(final(stack)@)),
{
    if seg.len() == 0 || is_dot(&seg) {
        return true;
    }
    if is_dot_dot(&seg) {
        if stack.len() == 0 {
            return false;
        }
        let _ = stack.pop();
        assert(stack_view(stack@) =~= stack_view(old(stack)@).drop_last());
        return true;
    }
    stack.push(seg);
    assert(stack_view(stack@) =~= stack_view(old(stack)@).push(seg@));
    true
}

/// Normalizes an absolute path: resolves `.` and `..` and drops empty segments.
pub fn normalize_path(path: &[char]) -> (r: Option<Vec<char>>)
    ensures
        r matches Some(v) ==> normalized(path@) == Some(v@),
        r is None ==> normalized(path@) is None,
{
    if path.len() == 0 || path[0] != '/' {
        return None;
    }
    let mut stack: Vec<Vec<char>> = Vec::new();
    let mut cur: Vec<char> = Vec::new();
    let mut failed = false;
    let mut i: usize = 0;
    assert(stack_view(stack@) =~= Seq::<Seq<char>>::empty());
    assert(cur@ =~= Seq::<char>::empty());
    while i < path.len() && !failed
        invariant
            i <= path@.len(),
            !failed ==> resolve_from(path@, 0, Seq::empty(), Seq::empty()) == resolve_from(
                path@,
                i as int,
                stack_view(stack@),
                cur@,
            ),
            failed ==> resolve_from(path@, 0, Seq::empty(), Seq::empty()) is None,
        decreases path@.len() - i + (if failed { 0int } else { 1 }),
    {
        if path[i] == '/' {
            let seg = cur;
            cur = Vec::new();
            if !push_segment(&mut stack, seg) {
                failed = true;
            }
        } else {
            cur.push(path[i]);
        }
        i = i + 1;
    }
    if failed {
        return None;
    }
    if !push_segment(&mut stack, cur) {
        return None;
    }
    let ghost st = stack_view(stack@);
    if stack.len() == 0 {
        let mut v: Vec<char> = Vec::new();
        v.push('/');
        assert(v@ =~= seq!['/']);
        return Some(v);
    }
    let mut out: Vec<char> = Vec::new();
    let mut k: usize = 0;
    while k < stack.len()
        invariant
            k <= stack@.len(),
            st == stack_view(stack@),
            out@ == join_segments(st.subrange(0, k as int)),
        decreases stack@.len() - k,
    {
        out.push('/');
        let mut j: usize = 0;
        let ghost before = out@;
        while j < stack[k].len()
            invariant
                k < stack@.len(),
                j <= stack@[k as int]@.len(),
                out@ == before + stack@[k as int]@.subrange(0, j as int),
            decreases stack@[k as int]@.len() - j,
        {
            out.push(stack[k][j]);
            j = j + 1;
            assert(out@ =~= before + stack@[k as int]@.subrange(0, j as int));
        }
        assert(stack@[k as int]@.subrange(0, j as int) =~= stack@[k as int]@);
        assert(st.subrange(0, k + 1) .drop_last() =~= st.subrange(0, k as int));
        k = k + 1;
    }
    assert(st.subrange(0, st.len() as int) =~= st);
    Some(out)
}

/// Index of the last `/` before `n`, or -1.
pub open spec fn last_slash(p: Seq<char>, n: int) -> int
    decreases n,
{
    if n <= 0 {
        -1
    } else if p[n - 1] == '/' {
        n - 1
    } else {
        last_slash(p, n - 1)
    }
}

proof fn lemma_last_slash(p: Seq<char>, n: int)
    requires
        0 <= n <= p.len(),
    ensures
        -1 <= last_slash(p, n) < n,
        last_slash(p, n) >= 0 ==> p[last_slash(p, n)] == '/',
    decreases n,
{
    if n > 0 && p[n - 1] != '/' {
        lemma_last_slash(p, n - 1);
    }
}

/// The directory a path is in: everything before its last `/`, or `/` for a top-level name.
pub open spec fn parent_of(p: Seq<char>) -> Option<Seq<char>> {
    let s = last_slash(p, p.len() as int);
    if s < 0 {
        None
    } else if s == 0 {
        Some(seq!['/'])
    } else {
        Some(p.subrange(0, s))
    }
}

pub fn parent_directory(path: &[char]) -> (r: Option<Vec<char>>)
    ensures
        r matches Some(v) ==> parent_of(path@) == Some(v@),
        r is None ==> parent_of(path@) is None,
{
    let mut n: usize = path.len();
    while n > 0 && path[n - 1] != '/'
        invariant
            n <= path@.len(),
            last_slash(path@, path@.len() as int) == last_slash(path@, n as int),
        decreases n,
    {
        n = n - 1;
    }
    if n == 0 {
        return None;
    }
    let slash = n - 1;
    if slash == 0 {
        let mut v: Vec<char> = Vec::new();
        v.push('/');
        assert(v@ =~= seq!['/']);
        return Some(v);
    }
    Some(copy_chars(&path[0..slash]))
}

/// Whether a normalized path may be touched: a root, or a name directly under a root.
pub open spec fn parent_check(p: Seq<char>) -> Result<(), TmpfsError> {
    if !handles(p) {
        Err(TmpfsError::InvalidPath)
    } else if is_root(p) {
        Ok(())
    } else {
        match parent_of(p) {
            Some(q) => if is_root(q) { Ok(()) } else { Err(TmpfsError::InvalidPath) },
            None => Err(TmpfsError::InvalidPath),
        }
    }
}

fn ensure_tmpfs_parent(path: &[char]) -> (r: Result<(), TmpfsError>)
    ensures
        r == parent_check(path@),
{
    if !handles_path(path) {
        return Err(TmpfsError::InvalidPath);
    }
    if is_root_path(path) {
        return Ok(());
    }
    match parent_directory(path) {
        Some(parent) => if is_root_path(parent.as_slice()) {
            Ok(())
        } else {
            Err(TmpfsError::InvalidPath)
        },
        None => Err(TmpfsError::InvalidPath),
    }
}

/// The name of `path` when it is a direct child of `parent`.
pub open spec fn child_name(parent: Seq<char>, path: Seq<char>) -> Option<Seq<char>> {
    let n = parent.len() as int;
    if has_prefix(path, parent) && path.len() > n + 1 && path[n] == '/' && !path.subrange(
        n + 1,
        path.len() as int,
    ).contains('/') {
        Some(path.subrange(n + 1, path.len() as int))
    } else {
        None
    }
}

pub fn direct_child_name(parent: &[char], path: &[char]) -> (r: Option<Vec<char>>)
    ensures
        r matches Some(v) ==> child_name(parent@, path@) == Some(v@),
        r is None ==> child_name(parent@, path@) is None,
{
    if !starts_with(path, parent) {
        return None;
    }
    let n = parent.len();
    if path.len() - n <= 1 || path[n] != '/' {
        return None;
    }
    let suffix = &path[n + 1..path.len()];
    assert(suffix@ =~= path@.subrange(n + 1, path@.len() as int));
    let mut i: usize = 0;
    while i < suffix.len()
        invariant
            i <= suffix@.len(),
            n == parent@.len(),
            n + 1 < path@.len(),
            has_prefix(path@, parent@),
            path@[n as int] == '/',
            suffix@ == path@.subrange(n + 1, path@.len() as int),
            forall|k: int| 0 <= k < i ==> suffix@[k] != '/',
        decreases suffix@.len() - i,
    {
        if suffix[i] == '/' {
            assert(suffix@[i as int] == '/');
            assert(suffix@.contains('/'));
            return None;
        }
        i = i + 1;
    }
    assert(!suffix@.contains('/'));
    Some(copy_chars(suffix))
}

/// Lexicographic order on names by code point, from index `i` on; UTF-8 byte order
/// gives the same order.
pub open spec fn lex_le_from(a: Seq<char>, b: Seq<char>, i: int) -> bool
    decreases a.len() - i,
{
    if i >= a.len() {
        true
    } else if i >= b.len() {
        false
    } else if (a[i] as int) < (b[i] as int) {
        true
    } else if a[i] == b[i] {
        lex_le_from(a, b, i + 1)
    } else {
        false
    }
}

pub open spec fn lex_le(a: Seq<char>, b: Seq<char>) -> bool {
    lex_le_from(a, b, 0)
}

proof fn lemma_lex_total(a: Seq<char>, b: Seq<char>, i: int)
    requires
        0 <= i,
    ensures
        lex_le_from(a, b, i) || lex_le_from(b, a, i),
    decreases a.len() - i,
{
    if i < a.len() && i < b.len() {
        if a[i] == b[i] {
            lemma_lex_total(a, b, i + 1);
        } else {
            assert((a[i] as int) != (b[i] as int));
        }
    }
}

proof fn lemma_lex_refl(a: Seq<char>, i: int)
    requires
        0 <= i,
    ensures
        lex_le_from(a, a, i),
    decreases a.len() - i,
{
    if i < a.len() {
        lemma_lex_refl(a, i + 1);
    }
}

proof fn lemma_lex_trans(a: Seq<char>, b: Seq<char>, c: Seq<char>, i: int)
    requires
        0 <= i,
        lex_le_from(a, b, i),
        lex_le_from(b, c, i),
    ensures
        lex_le_from(a, c, i),
    decreases a.len() - i,
{
    if i < a.len() && i < b.len() && i < c.len() && a[i] == b[i] && b[i] == c[i] {
        lemma_lex_trans(a, b, c, i + 1);
    }
}

proof fn lemma_lex_antisym(a: Seq<char>, b: Seq<char>, i: int)
    requires
        0 <= i <= a.len(),
        i <= b.len(),
        lex_le_from(a, b, i),
        lex_le_from(b, a, i),
        a.subrange(0, i) == b.subrange(0, i),
    ensures
        a == b,
    decreases a.len() - i,
{
    if i < a.len() && i < b.len() {
        assert(a.subrange(0, i + 1) =~= a.subrange(0, i).push(a[i]));
        assert(b.subrange(0, i + 1) =~= b.subrange(0, i).push(b[i]));
        lemma_lex_antisym(a, b, i + 1);
    } else {
        assert(a.len() == i && b.len() == i);
        assert(a =~= a.subrange(0, i));
        assert(b =~= b.subrange(0, i));
    }
}

/// Whether `a` orders no later than `b`.
pub fn lex_le_chars(a: &[char], b: &[char]) -> (r: bool)
    ensures
        r == lex_le(a@, b@),
{
    let mut i: usize = 0;
    while i < a.len() && i < b.len() && a[i] == b[i]
        invariant
            i <= a@.len(),
            i <= b@.len(),
            lex_le(a@, b@) == lex_le_from(a@, b@, i as int),
        decreases a@.len() - i,
    {
        i = i + 1;
    }
    if i >= a.len() {
        true
    } else if i >= b.len() {
        false
    } else {
        a[i] < b[i]
    }
}

pub open spec fn sorted_names(s: Seq<Seq<char>>) -> bool {
    forall|i: int, j: int| 0 <= i < j < s.len() ==> lex_le(#[trigger] s[i], #[trigger] s[j])
}

/// Two sorted arrangements of the same names are the same sequence.
pub proof fn lemma_sorted_unique(a: Seq<Seq<char>>, b: Seq<Seq<char>>)
    requires
        sorted_names(a),
        sorted_names(b),
        a.to_multiset() == b.to_multiset(),
    ensures
        a == b,
    decreases a.len(),
{
    broadcast use vstd::seq_lib::group_to_multiset_ensures;
    vstd::seq_lib::to_multiset_len(a);
    vstd::seq_lib::to_multiset_len(b);
    assert(a.len() == b.len());
    if a.len() > 0 {
        lemma_lex_refl(a.last(), 0);
        let x = a.last();
        let y = b.last();
        assert(a.to_multiset().count(y) > 0);
        assert(b.to_multiset().count(x) > 0);
        vstd::seq_lib::to_multiset_contains(a, y);
        vstd::seq_lib::to_multiset_contains(b, x);
        assert(a.contains(y));
        assert(b.contains(x));
        let iy = choose|k: int| 0 <= k < a.len() && a[k] == y;
        let ix = choose|k: int| 0 <= k < b.len() && b[k] == x;
        assert(lex_le(y, x)) by {
            if iy < a.len() - 1 {
                assert(lex_le(a[iy], a[a.len() - 1]));
            }
        }
        assert(lex_le(x, y)) by {
            if ix < b.len() - 1 {
                assert(lex_le(b[ix], b[b.len() - 1]));
            }
        }
        assert(x.subrange(0, 0) =~= y.subrange(0, 0));
        lemma_lex_antisym(x, y, 0);
        assert(a.drop_last() =~= a.remove(a.len() - 1));
        assert(b.drop_last() =~= b.remove(b.len() - 1));
        vstd::seq_lib::to_multiset_remove(a, a.len() - 1);
        vstd::seq_lib::to_multiset_remove(b, b.len() - 1);
        assert(a.drop_last().to_multiset() =~= b.drop_last().to_multiset());
        lemma_sorted_unique(a.drop_last(), b.drop_last());
        assert(a =~= a.drop_last().push(x));
        assert(b =~= b.drop_last().push(y));
    }
}

/// Sorts names by `lex_le`.
pub fn sort_names(names: Vec<Vec<char>>) -> (out: Vec<Vec<char>>)
    ensures
        sorted_names(stack_view(out@)),
        stack_view(out@).to_multiset() == stack_view(names@).to_multiset(),
{
    broadcast use vstd::seq_lib::group_to_multiset_ensures;
    let mut out: Vec<Vec<char>> = Vec::new();
    let mut i: usize = 0;
    assert(stack_view(out@) =~= Seq::<Seq<char>>::empty());
    assert(stack_view(names@).subrange(0, 0) =~= Seq::<Seq<char>>::empty());
    while i < names.len()
        invariant
            i <= names@.len(),
            sorted_names(stack_view(out@)),
            stack_view(out@).to_multiset() == stack_view(names@).subrange(0, i as int).to_multiset(),
        decreases names@.len() - i,
    {
        let x = copy_chars(names[i].as_slice());
        let mut j: usize = 0;
        while j < out.len() && !lex_le_chars(x.as_slice(), out[j].as_slice())
            invariant
                j <= out@.len(),
                forall|k: int| 0 <= k < j ==> lex_le(#[trigger] stack_view(out@)[k], x@),
            decreases out@.len() - j,
        {
            proof {
                lemma_lex_total(x@, out@[j as int]@, 0);
            }
            j = j + 1;
        }
        let ghost before = stack_view(out@);
        out.insert(j, x);
        proof {
            let after = stack_view(out@);
            assert(after =~= before.insert(j as int, x@));
            assert forall|a: int, b: int| 0 <= a < b < after.len() implies lex_le(#[trigger] after[a], #[trigger] after[b]) by {
                if b < j {
                } else if a < j && b == j {
                } else if a < j && b > j {
                    assert(lex_le(before[a], x@));
                    if j < before.len() {
                        assert(lex_le(x@, before[j as int]));
                        if b - 1 > j {
                            assert(lex_le(before[j as int], before[b - 1]));
                            lemma_lex_trans(x@, before[j as int], before[b - 1], 0);
                        }
                        lemma_lex_trans(before[a], x@, before[b - 1], 0);
                    }
                } else if a == j {
                    if j < before.len() {
                        assert(lex_le(x@, before[j as int]));
                        if b - 1 > j {
                            assert(lex_le(before[j as int], before[b - 1]));
                            lemma_lex_trans(x@, before[j as int], before[b - 1], 0);
                        }
                    }
                } else {
                    assert(lex_le(before[a - 1], before[b - 1]));
                }
            }
            vstd::seq_lib::to_multiset_insert(before, j as int, x@);
            assert(stack_view(names@).subrange(0, i + 1) =~= stack_view(names@).subrange(0, i as int).push(x@));
            vstd::seq_lib::to_multiset_build(stack_view(names@).subrange(0, i as int), x@);
        }
        i = i + 1;
    }
    assert(stack_view(names@).subrange(0, names@.len() as int) =~= stack_view(names@));
    out
}

/// What `String::from_utf8_lossy` makes of some bytes: invalid sequences become U+FFFD.
pub uninterp spec fn lossy_text(bytes: Seq<u8>) -> Seq<char>;

/// Decodes bytes as UTF-8 with `String::from_utf8_lossy`. Its documentation promises
/// that valid UTF-8 decodes as written; this contract states that for ASCII bytes and
/// otherwise names the result.
#[verifier::external_body]
fn utf8_lossy(bytes: &[u8]) -> (text: Vec<char>)
    ensures
        text@ == lossy_text(bytes@),
        (forall|i: int| 0 <= i < bytes@.len() ==> #[trigger] bytes@[i] < 0x80) ==> text@ == bytes@.map_values(
            |b: u8| b as char,
        ),
{
    String::from_utf8_lossy(bytes).chars().collect()
}

/// One file: its normalized path and its bytes.
pub struct TmpfsFile {
    pub path: Vec<char>,
    pub content: Vec<u8>,
}

pub open spec fn files_view(files: Seq<TmpfsFile>) -> Seq<(Seq<char>, Seq<u8>)> {
    files.map_values(|f: TmpfsFile| (f.path@, f.content@))
}

/// The first file at or after `from` whose path is `p`.
pub open spec fn find_file(v: Seq<(Seq<char>, Seq<u8>)>, p: Seq<char>, from: int) -> Option<int>
    decreases v.len() - from,
{
    if from < 0 || from >= v.len() {
        None
    } else if v[from].0 == p {
        Some(from)
    } else {
        find_file(v, p, from + 1)
    }
}

/// The content of the file at `p`.
pub open spec fn file_content(v: Seq<(Seq<char>, Seq<u8>)>, p: Seq<char>) -> Option<Seq<u8>> {
    match find_file(v, p, 0) {
        Some(i) => Some(v[i].1),
        None => None,
    }
}

/// No two files share a path.
pub open spec fn unique_paths(v: Seq<(Seq<char>, Seq<u8>)>) -> bool {
    forall|i: int, j: int| 0 <= i < j < v.len() ==> (#[trigger] v[i]).0 != (#[trigger] v[j]).0
}

proof fn lemma_find_file_bounds(v: Seq<(Seq<char>, Seq<u8>)>, p: Seq<char>, from: int)
    ensures
        find_file(v, p, from) matches Some(i) ==> from <= i < v.len() && v[i].0 == p,
        find_file(v, p, from) is None && from >= 0 ==> forall|k: int| from <= k < v.len() ==> (#[trigger] v[k]).0 != p,
    decreases v.len() - from,
{
    if 0 <= from < v.len() && v[from].0 != p {
        lemma_find_file_bounds(v, p, from + 1);
    }
}

/// With unique paths, the file found for `p` is the one at any index holding `p`.
proof fn lemma_find_file_at(v: Seq<(Seq<char>, Seq<u8>)>, p: Seq<char>, from: int, k: int)
    requires
        0 <= from <= k < v.len(),
        v[k].0 == p,
        forall|m: int| from <= m < k ==> (#[trigger] v[m]).0 != p,
    ensures
        find_file(v, p, from) == Some(k),
    decreases k - from,
{
    if from < k {
        lemma_find_file_at(v, p, from + 1, k);
    }
}

proof fn lemma_find_unique(v: Seq<(Seq<char>, Seq<u8>)>, p: Seq<char>, k: int)
    requires
        unique_paths(v),
        0 <= k < v.len(),
        v[k].0 == p,
    ensures
        find_file(v, p, 0) == Some(k),
{
    assert forall|m: int| 0 <= m < k implies (#[trigger] v[m]).0 != p by {
        assert(v[m].0 != v[k].0);
    }
    lemma_find_file_at(v, p, 0, k);
}

proof fn lemma_find_absent(v: Seq<(Seq<char>, Seq<u8>)>, p: Seq<char>)
    requires
        forall|k: int| 0 <= k < v.len() ==> (#[trigger] v[k]).0 != p,
    ensures
        find_file(v, p, 0) is None,
{
    lemma_find_absent_from(v, p, 0);
}

proof fn lemma_find_absent_from(v: Seq<(Seq<char>, Seq<u8>)>, p: Seq<char>, from: int)
    requires
        0 <= from,
        forall|k: int| 0 <= k < v.len() ==> (#[trigger] v[k]).0 != p,
    ensures
        find_file(v, p, from) is None,
    decreases v.len() - from,
{
    if from < v.len() {
        lemma_find_absent_from(v, p, from + 1);
    }
}

/// The files after writing `c` to the file at `p`.
pub open spec fn write_view(v: Seq<(Seq<char>, Seq<u8>)>, p: Seq<char>, c: Seq<u8>) -> Seq<(Seq<char>, Seq<u8>)> {
    match find_file(v, p, 0) {
        Some(i) => v.update(i, (p, c)),
        None => v,
    }
}

/// The files after removing the one at `p`.
pub open spec fn unlink_view(v: Seq<(Seq<char>, Seq<u8>)>, p: Seq<char>) -> Seq<(Seq<char>, Seq<u8>)> {
    match find_file(v, p, 0) {
        Some(i) => v.remove(i),
        None => v,
    }
}

/// The files after the one at `src` takes the path `dst`, replacing any file there.
pub open spec fn rename_view(v: Seq<(Seq<char>, Seq<u8>)>, src: Seq<char>, dst: Seq<char>) -> Seq<
    (Seq<char>, Seq<u8>),
> {
    match find_file(v, src, 0) {
        None => v,
        Some(i) => {
            let content = v[i].1;
            let w = unlink_view(v, dst);
            match find_file(w, src, 0) {
                Some(j) => w.update(j, (dst, content)),
                None => w,
            }
        },
    }
}

/// Writing a file and reading it back gives what was written, and leaves every other
/// path as it was.
pub proof fn lemma_read_after_write(v: Seq<(Seq<char>, Seq<u8>)>, p: Seq<char>, c: Seq<u8>, q: Seq<char>)
    requires
        unique_paths(v),
        find_file(v, p, 0) is Some,
    ensures
        file_content(write_view(v, p, c), p) == Some(c),
        q != p ==> file_content(write_view(v, p, c), q) == file_content(v, q),
        unique_paths(write_view(v, p, c)),
{
    lemma_find_file_bounds(v, p, 0);
    let i = find_file(v, p, 0)->0;
    let w = v.update(i, (p, c));
    assert(unique_paths(w)) by {
        assert forall|a: int, b: int| 0 <= a < b < w.len() implies (#[trigger] w[a]).0 != (#[trigger] w[b]).0 by {
            assert(v[a].0 != v[b].0);
        }
    }
    lemma_find_unique(w, p, i);
    if q != p {
        match find_file(v, q, 0) {
            Some(k) => {
                lemma_find_file_bounds(v, q, 0);
                lemma_find_unique(w, q, k);
            },
            None => {
                lemma_find_file_bounds(v, q, 0);
                lemma_find_absent(w, q);
            },
        }
    }
}

/// After a file is removed, reading its path finds nothing, and every other path
/// reads as before.
pub proof fn lemma_read_after_unlink(v: Seq<(Seq<char>, Seq<u8>)>, p: Seq<char>, q: Seq<char>)
    requires
        unique_paths(v),
    ensures
        file_content(unlink_view(v, p), p) is None,
        q != p ==> file_content(unlink_view(v, p), q) == file_content(v, q),
        unique_paths(unlink_view(v, p)),
{
    lemma_find_file_bounds(v, p, 0);
    match find_file(v, p, 0) {
        None => {},
        Some(i) => {
            let w = v.remove(i);
            assert(unique_paths(w)) by {
                assert forall|a: int, b: int| 0 <= a < b < w.len() implies (#[trigger] w[a]).0 != (#[trigger] w[b]).0 by {
                    let a2 = if a < i { a } else { a + 1 };
                    let b2 = if b < i { b } else { b + 1 };
                    assert(w[a] == v[a2]);
                    assert(w[b] == v[b2]);
                    assert(v[a2].0 != v[b2].0);
                }
            }
            assert forall|k: int| 0 <= k < w.len() implies (#[trigger] w[k]).0 != p by {
                let k2 = if k < i { k } else { k + 1 };
                assert(w[k] == v[k2]);
                assert(v[k2].0 != v[i].0);
            }
            lemma_find_absent(w, p);
            if q != p {
                lemma_find_file_bounds(v, q, 0);
                match find_file(v, q, 0) {
                    Some(k) => {
                        let k2 = if k < i { k } else { k - 1 };
                        assert(w[k2] == v[k]);
                        lemma_find_unique(w, q, k2);
                    },
                    None => {
                        assert forall|k: int| 0 <= k < w.len() implies (#[trigger] w[k]).0 != q by {
                            let k2 = if k < i { k } else { k + 1 };
                            assert(w[k] == v[k2]);
                        }
                        lemma_find_absent(w, q);
                    },
                }
            }
        },
    }
}

/// After a rename, the destination reads as the source did, the source reads as nothing,
/// and every other path reads as before.
pub proof fn lemma_read_after_rename(v: Seq<(Seq<char>, Seq<u8>)>, src: Seq<char>, dst: Seq<char>, q: Seq<char>)
    requires
        unique_paths(v),
        src != dst,
        find_file(v, src, 0) is Some,
    ensures
        file_content(rename_view(v, src, dst), dst) == file_content(v, src),
        file_content(rename_view(v, src, dst), src) is None,
        q != src && q != dst ==> file_content(rename_view(v, src, dst), q) == file_content(v, q),
        unique_paths(rename_view(v, src, dst)),
{
    lemma_find_file_bounds(v, src, 0);
    let i = find_file(v, src, 0)->0;
    let content = v[i].1;
    let w = unlink_view(v, dst);
    lemma_read_after_unlink(v, dst, src);
    lemma_read_after_unlink(v, dst, q);
    lemma_find_file_bounds(w, src, 0);
    lemma_find_file_bounds(w, dst, 0);
    let j = find_file(w, src, 0)->0;
    assert(w[j].1 == content);
    let x = w.update(j, (dst, content));
    assert(unique_paths(x)) by {
        assert forall|a: int, b: int| 0 <= a < b < x.len() implies (#[trigger] x[a]).0 != (#[trigger] x[b]).0 by {
            if a == j {
                assert(w[b].0 != dst);
            } else if b == j {
                assert(w[a].0 != dst);
            } else {
                assert(w[a].0 != w[b].0);
            }
        }
    }
    lemma_find_unique(x, dst, j);
    assert forall|k: int| 0 <= k < x.len() implies (#[trigger] x[k]).0 != src by {
        if k != j {
            assert(w[k].0 != w[j].0);
        }
    }
    lemma_find_absent(x, src);
    if q != src && q != dst {
        lemma_find_file_bounds(w, q, 0);
        match find_file(w, q, 0) {
            Some(k) => {
                lemma_find_unique(x, q, k);
            },
            None => {
                assert forall|k: int| 0 <= k < x.len() implies (#[trigger] x[k]).0 != q by {
                    if k != j {
                        assert(x[k] == w[k]);
                    }
                }
                lemma_find_absent(x, q);
            },
        }
    }
}

/// The names directly under `parent`, in file order.
pub open spec fn children_of(v: Seq<(Seq<char>, Seq<u8>)>, parent: Seq<char>) -> Seq<Seq<char>>
    decreases v.len(),
{
    if v.len() == 0 {
        Seq::empty()
    } else {
        let rest = children_of(v.drop_last(), parent);
        match child_name(parent, v.last().0) {
            Some(n) => rest.push(n),
            None => rest,
        }
    }
}

/// Names one per line.
pub open spec fn lines(ns: Seq<Seq<char>>) -> Seq<char>
    decreases ns.len(),
{
    if ns.len() == 0 {
        Seq::empty()
    } else {
        lines(ns.drop_last()) + ns.last().push('\n')
    }
}

/// The listing of a directory: its children's names sorted, one per line.
pub open spec fn listing_of(v: Seq<(Seq<char>, Seq<u8>)>, parent: Seq<char>, text: Seq<char>) -> bool {
    exists|ns: Seq<Seq<char>>|
        sorted_names(ns) && ns.to_multiset() == children_of(v, parent).to_multiset() && text == lines(ns)
}

/// The listing of a directory as text: its children's names in sorted order, one per line.
pub open spec fn dir_listing(v: Seq<(Seq<char>, Seq<u8>)>, parent: Seq<char>) -> Seq<char> {
    lines(choose|ns: Seq<Seq<char>>| sorted_names(ns) && ns.to_multiset() == children_of(v, parent).to_multiset())
}

/// What a node is: a root is a directory; a stored path, once up, is a file.
pub open spec fn kind_of(init: bool, v: Seq<(Seq<char>, Seq<u8>)>, path: Seq<char>) -> Option<TmpfsNodeKind> {
    match normalized(path) {
        None => None,
        Some(n) => if is_root(n) {
            Some(TmpfsNodeKind::Directory)
        } else if !init {
            None
        } else if find_file(v, n, 0) is Some {
            Some(TmpfsNodeKind::File)
        } else {
            None
        },
    }
}

/// The bytes of the file a path names.
pub open spec fn bytes_of(init: bool, v: Seq<(Seq<char>, Seq<u8>)>, path: Seq<char>) -> Option<Seq<u8>> {
    match normalized(path) {
        None => None,
        Some(n) => if !init { None } else { file_content(v, n) },
    }
}

/// What reading a path gives: a directory's listing, or a file's bytes decoded as text.
pub open spec fn text_of(init: bool, v: Seq<(Seq<char>, Seq<u8>)>, path: Seq<char>) -> Option<Seq<char>> {
    match normalized(path) {
        None => None,
        Some(n) => match kind_of(init, v, n) {
            None => None,
            Some(TmpfsNodeKind::Directory) => if init { Some(dir_listing(v, n)) } else { None },
            Some(TmpfsNodeKind::File) => match bytes_of(init, v, n) {
                Some(b) => Some(lossy_text(b)),
                None => None,
            },
        },
    }
}

/// What opening a path gives: the normalized path and the content handed back.
pub open spec fn open_outcome(
    init: bool,
    v: Seq<(Seq<char>, Seq<u8>)>,
    path: Seq<char>,
    create: bool,
    truncate: bool,
) -> Result<(Seq<char>, Seq<u8>), TmpfsError> {
    match normalized(path) {
        None => Err(TmpfsError::InvalidPath),
        Some(n) => match parent_check(n) {
            Err(e) => Err(e),
            Ok(_) => if !init {
                Err(TmpfsError::NotInitialized)
            } else if is_root(n) {
                Err(TmpfsError::IsDirectory)
            } else {
                match find_file(v, n, 0) {
                    Some(i) => Ok((n, if truncate { Seq::empty() } else { v[i].1 })),
                    None => if !create {
                        Err(TmpfsError::NotFound)
                    } else if v.len() >= MAX_TMPFS_FILES {
                        Err(TmpfsError::FileLimitReached)
                    } else {
                        Ok((n, Seq::empty()))
                    },
                }
            },
        },
    }
}

/// The files after a successful open.
pub open spec fn open_view(v: Seq<(Seq<char>, Seq<u8>)>, n: Seq<char>, truncate: bool) -> Seq<(Seq<char>, Seq<u8>)> {
    match find_file(v, n, 0) {
        Some(i) => if truncate { v.update(i, (n, Seq::empty())) } else { v },
        None => v.push((n, Seq::empty())),
    }
}

/// Whether a write to a path is refused, and with what.
pub open spec fn write_check(init: bool, v: Seq<(Seq<char>, Seq<u8>)>, path: Seq<char>) -> Result<Seq<char>, TmpfsError> {
    match normalized(path) {
        None => Err(TmpfsError::InvalidPath),
        Some(n) => match parent_check(n) {
            Err(e) => Err(e),
            Ok(_) => if !init {
                Err(TmpfsError::NotInitialized)
            } else if find_file(v, n, 0) is None {
                Err(TmpfsError::NotFound)
            } else {
                Ok(n)
            },
        },
    }
}

/// Whether removing a path is refused, and with what.
pub open spec fn unlink_check(init: bool, v: Seq<(Seq<char>, Seq<u8>)>, path: Seq<char>) -> Result<Seq<char>, TmpfsError> {
    match normalized(path) {
        None => Err(TmpfsError::InvalidPath),
        Some(n) => if is_root(n) {
            Err(TmpfsError::IsDirectory)
        } else if !init {
            Err(TmpfsError::NotInitialized)
        } else if find_file(v, n, 0) is None {
            Err(TmpfsError::NotFound)
        } else {
            Ok(n)
        },
    }
}

/// Whether a rename is refused; `Ok(None)` when source and destination are the same.
pub open spec fn rename_check(init: bool, v: Seq<(Seq<char>, Seq<u8>)>, src: Seq<char>, dst: Seq<char>) -> Result<
    Option<(Seq<char>, Seq<char>)>,
    TmpfsError,
> {
    match (normalized(src), normalized(dst)) {
        (None, _) => Err(TmpfsError::InvalidPath),
        (_, None) => Err(TmpfsError::InvalidPath),
        (Some(s), Some(d)) => if parent_check(s) is Err {
            Err(parent_check(s)->Err_0)
        } else if parent_check(d) is Err {
            Err(parent_check(d)->Err_0)
        } else if is_root(s) || is_root(d) {
            Err(TmpfsError::IsDirectory)
        } else if s == d {
            Ok(None)
        } else if !init {
            Err(TmpfsError::NotInitialized)
        } else if find_file(v, s, 0) is None {
            Err(TmpfsError::NotFound)
        } else {
            Ok(Some((s, d)))
        },
    }
}

/// The sum of the files' sizes, saturating at `usize::MAX`.
pub open spec fn total_size(v: Seq<(Seq<char>, Seq<u8>)>) -> int
    decreases v.len(),
{
    if v.len() == 0 {
        0
    } else {
        let t = total_size(v.drop_last()) + v.last().1.len();
        if t > usize::MAX { usize::MAX as int } else { t }
    }
}

/// The tmpfs state: whether it is up, and its files.
pub struct TmpfsState {
    pub initialized: bool,
    pub files: Vec<TmpfsFile>,
}

impl TmpfsState {
    pub open spec fn view(&self) -> Seq<(Seq<char>, Seq<u8>)> {
        files_view(self.files@)
    }

    pub open spec fn wf(&self) -> bool {
        &&& self.files@.len() <= MAX_TMPFS_FILES
        &&& unique_paths(self.view())
        &&& !self.initialized ==> self.files@.len() == 0
    }

    pub fn new() -> (s: Self)
        ensures
            s.wf(),
            !s.initialized,
            s.view().len() == 0,
    {
        TmpfsState { initialized: false, files: Vec::new() }
    }

    pub fn is_initialized(&self) -> (b: bool)
        ensures
            b == self.initialized,
    {
        self.initialized
    }

    pub fn initialize(&mut self) -> (r: Result<TmpfsSummary, TmpfsError>)
        requires
            old(self).wf(),
        ensures
            final(self).wf(),
            final(self).initialized,
            old(self).initialized ==> r == Err::<TmpfsSummary, TmpfsError>(TmpfsError::AlreadyInitialized)
                && final(self).view() == old(self).view(),
            !old(self).initialized ==> final(self).view().len() == 0 && (r matches Ok(s) && s.directory_count == 2
                && s.file_count == 0 && s.entry_count == 2 && s.total_bytes == 0),
    {
        if self.initialized {
            return Err(TmpfsError::AlreadyInitialized);
        }
        self.initialized = true;
        self.files = Vec::new();
        assert(self.view() =~= Seq::<(Seq<char>, Seq<u8>)>::empty());
        Ok(self.summary())
    }

    pub fn summary(&self) -> (s: TmpfsSummary)
        requires
            self.wf(),
        ensures
            !self.initialized ==> s.directory_count == 0 && s.file_count == 0 && s.entry_count == 0
                && s.total_bytes == 0,
            self.initialized ==> s.directory_count == 2 && s.file_count == self.view().len() && s.entry_count == 2
                + self.view().len() && s.total_bytes == total_size(self.view()),
    {
        if !self.initialized {
            return TmpfsSummary { directory_count: 0, file_count: 0, entry_count: 0, total_bytes: 0 };
        }
        let mut total: usize = 0;
        let mut i: usize = 0;
        while i < self.files.len()
            invariant
                i <= self.files@.len(),
                total as int == total_size(self.view().subrange(0, i as int)),
            decreases self.files@.len() - i,
        {
            assert(self.view().subrange(0, i + 1).drop_last() =~= self.view().subrange(0, i as int));
            total = total.saturating_add(self.files[i].content.len());
            i = i + 1;
        }
        assert(self.view().subrange(0, self.files@.len() as int) =~= self.view());
        let file_count = self.files.len();
        TmpfsSummary { directory_count: 2, file_count, entry_count: 2 + file_count, total_bytes: total }
    }

    /// The names directly under `parent`.
    fn child_names(&self, parent: &[char]) -> (names: Vec<Vec<char>>)
        ensures
            stack_view(names@) == children_of(self.view(), parent@),
    {
        let mut names: Vec<Vec<char>> = Vec::new();
        let mut i: usize = 0;
        assert(stack_view(names@) =~= Seq::<Seq<char>>::empty());
        while i < self.files.len()
            invariant
                i <= self.files@.len(),
                stack_view(names@) == children_of(self.view().subrange(0, i as int), parent@),
            decreases self.files@.len() - i,
        {
            assert(self.view().subrange(0, i + 1).drop_last() =~= self.view().subrange(0, i as int));
            match direct_child_name(parent, self.files[i].path.as_slice()) {
                Some(name) => {
                    names.push(name);
                    assert(stack_view(names@) =~= children_of(self.view().subrange(0, i + 1), parent@));
                },
                None => {},
            }
            i = i + 1;
        }
        assert(self.view().subrange(0, self.files@.len() as int) =~= self.view());
        names
    }

    /// The listing of a directory; `None` before initialization.
    pub fn render_directory(&self, path: &[char]) -> (r: Option<Vec<char>>)
        ensures
            !self.initialized ==> r is None,
            self.initialized ==> (r matches Some(t) && t@ == dir_listing(self.view(), path@)),
    {
        if !self.initialized {
            return None;
        }
        let names = self.child_names(path);
        let sorted = sort_names(names);
        let ghost ns = stack_view(sorted@);
        let mut text: Vec<char> = Vec::new();
        let mut i: usize = 0;
        assert(text@ =~= lines(ns.subrange(0, 0)));
        while i < sorted.len()
            invariant
                i <= sorted@.len(),
                ns == stack_view(sorted@),
                text@ == lines(ns.subrange(0, i as int)),
            decreases sorted@.len() - i,
        {
            let ghost before = text@;
            let mut j: usize = 0;
            while j < sorted[i].len()
                invariant
                    i < sorted@.len(),
                    j <= sorted@[i as int]@.len(),
                    text@ == before + sorted@[i as int]@.subrange(0, j as int),
                decreases sorted@[i as int]@.len() - j,
            {
                text.push(sorted[i][j]);
                j = j + 1;
                assert(text@ =~= before + sorted@[i as int]@.subrange(0, j as int));
            }
            text.push('\n');
            assert(sorted@[i as int]@.subrange(0, j as int) =~= sorted@[i as int]@);
            assert(ns.subrange(0, i + 1).drop_last() =~= ns.subrange(0, i as int));
            assert(text@ =~= lines(ns.subrange(0, i + 1)));
            i = i + 1;
        }
        assert(ns.subrange(0, ns.len() as int) =~= ns);
        proof {
            let c = choose|m: Seq<Seq<char>>| sorted_names(m) && m.to_multiset() == children_of(self.view(), path@).to_multiset();
            assert(sorted_names(ns) && ns.to_multiset() == children_of(self.view(), path@).to_multiset());
            lemma_sorted_unique(c, ns);
        }
        Some(text)
    }

    pub fn node_kind(&self, path: &[char]) -> (r: Option<TmpfsNodeKind>)
        ensures
            r == kind_of(self.initialized, self.view(), path@),
    {
        let normalized = match normalize_path(path) {
            Some(n) => n,
            None => return None,
        };
        if is_root_path(normalized.as_slice()) {
            return Some(TmpfsNodeKind::Directory);
        }
        if !self.initialized {
            return None;
        }
        match self.find_index(normalized.as_slice()) {
            Some(_) => Some(TmpfsNodeKind::File),
            None => None,
        }
    }

    /// A copy of the bytes of the file at `path`.
    pub fn read_bytes(&self, path: &[char]) -> (r: Option<Vec<u8>>)
        ensures
            r matches Some(b) ==> bytes_of(self.initialized, self.view(), path@) == Some(b@),
            r is None ==> bytes_of(self.initialized, self.view(), path@) is None,
    {
        let normalized = match normalize_path(path) {
            Some(n) => n,
            None => return None,
        };
        if !self.initialized {
            return None;
        }
        match self.find_index(normalized.as_slice()) {
            Some(i) => {
                proof {
                    lemma_find_file_bounds(self.view(), normalized@, 0);
                }
                Some(self.files[i].content.clone())
            },
            None => None,
        }
    }

    /// Reads a path as text: a directory's listing, or a file's bytes decoded leniently.
    pub fn read(&self, path: &[char]) -> (r: Option<Vec<char>>)
        ensures
            r matches Some(t) ==> text_of(self.initialized, self.view(), path@) == Some(t@),
            r is None ==> text_of(self.initialized, self.view(), path@) is None,
    {
        let normalized = match normalize_path(path) {
            Some(n) => n,
            None => return None,
        };
        match self.node_kind(normalized.as_slice()) {
            None => None,
            Some(TmpfsNodeKind::Directory) => self.render_directory(normalized.as_slice()),
            Some(TmpfsNodeKind::File) => match self.read_bytes(normalized.as_slice()) {
                Some(bytes) => Some(utf8_lossy(bytes.as_slice())),
                None => None,
            },
        }
    }

    /// The size of a node: a directory's listing length in UTF-8 bytes, or a file's length.
    pub fn node_info(&self, path: &[char]) -> (r: Option<TmpfsNodeInfo>)
        ensures
            kind_of(self.initialized, self.view(), path@) is None ==> r is None,
            kind_of(self.initialized, self.view(), path@) == Some(TmpfsNodeKind::Directory) ==> match text_of(
                self.initialized,
                self.view(),
                path@,
            ) {
                Some(t) => (r matches Some(info) && info.size as int == if utf8_len(t) > usize::MAX {
                    usize::MAX as int
                } else {
                    utf8_len(t)
                }),
                None => r is None,
            },
            kind_of(self.initialized, self.view(), path@) == Some(TmpfsNodeKind::File) ==> (r matches Some(info)
                && bytes_of(self.initialized, self.view(), path@) matches Some(b) && info.size == b.len()),
    {
        match self.node_kind(path) {
            None => None,
            Some(TmpfsNodeKind::Directory) => match self.read(path) {
                Some(text) => Some(TmpfsNodeInfo { size: crate::fat::utf8_text_len(&text) }),
                None => None,
            },
            Some(TmpfsNodeKind::File) => {
                let normalized = match normalize_path(path) {
                    Some(n) => n,
                    None => return None,
                };
                match self.find_index(normalized.as_slice()) {
                    Some(i) => {
                        proof {
                            lemma_find_file_bounds(self.view(), normalized@, 0);
                        }
                        Some(TmpfsNodeInfo { size: self.files[i].content.len() })
                    },
                    None => None,
                }
            },
        }
    }

    /// Opens a file under a root, creating it when asked; truncation empties it.
    pub fn open_file(&mut self, path: &[char], create: bool, truncate: bool) -> (r: Result<TmpfsOpenFile, TmpfsError>)
        requires
            old(self).wf(),
        ensures
            final(self).wf(),
            final(self).initialized == old(self).initialized,
            match open_outcome(old(self).initialized, old(self).view(), path@, create, truncate) {
                Ok((p, c)) => (r matches Ok(f) && f.path@ == p && f.content@ == c) && final(self).view() == open_view(
                    old(self).view(),
                    p,
                    truncate,
                ),
                Err(e) => r matches Err(e2) && e2 == e && final(self).view() == old(self).view(),
            },
    {
        let normalized = match normalize_path(path) {
            Some(n) => n,
            None => return Err(TmpfsError::InvalidPath),
        };
        match ensure_tmpfs_parent(normalized.as_slice()) {
            Ok(()) => {},
            Err(e) => return Err(e),
        }
        if !self.initialized {
            return Err(TmpfsError::NotInitialized);
        }
        if is_root_path(normalized.as_slice()) {
            return Err(TmpfsError::IsDirectory);
        }
        let ghost v = self.view();
        match self.find_index(normalized.as_slice()) {
            Some(i) => {
                proof {
                    lemma_find_file_bounds(v, normalized@, 0);
                }
                if truncate {
                    let p = copy_chars(self.files[i].path.as_slice());
                    self.files.set(i, TmpfsFile { path: p, content: Vec::new() });
                    assert(self.view() =~= v.update(i as int, (normalized@, Seq::<u8>::empty())));
                    assert(unique_paths(self.view())) by {
                        assert forall|a: int, b: int| 0 <= a < b < self.view().len() implies (#[trigger] self.view()[a]).0
                            != (#[trigger] self.view()[b]).0 by {
                            assert(v[a].0 != v[b].0);
                        }
                    }
                }
                let content = self.files[i].content.clone();
                return Ok(TmpfsOpenFile { path: normalized, content });
            },
            None => {},
        }
        if !create {
            return Err(TmpfsError::NotFound);
        }
        if self.files.len() >= MAX_TMPFS_FILES {
            return Err(TmpfsError::FileLimitReached);
        }
        let p = copy_chars(normalized.as_slice());
        self.files.push(TmpfsFile { path: p, content: Vec::new() });
        proof {
            lemma_find_file_bounds(v, normalized@, 0);
            assert(self.view() =~= v.push((normalized@, Seq::<u8>::empty())));
            assert(unique_paths(self.view())) by {
                assert forall|a: int, b: int| 0 <= a < b < self.view().len() implies (#[trigger] self.view()[a]).0
                    != (#[trigger] self.view()[b]).0 by {
                    if b == v.len() {
                        assert(v[a].0 != normalized@);
                    } else {
                        assert(v[a].0 != v[b].0);
                    }
                }
            }
        }
        Ok(TmpfsOpenFile { path: normalized, content: Vec::new() })
    }

    /// Replaces the content of an existing file.
    pub fn write_file(&mut self, path: &[char], content: &[u8]) -> (r: Result<(), TmpfsError>)
        requires
            old(self).wf(),
        ensures
            final(self).wf(),
            final(self).initialized == old(self).initialized,
            match write_check(old(self).initialized, old(self).view(), path@) {
                Ok(n) => r is Ok && final(self).view() == write_view(old(self).view(), n, content@),
                Err(e) => r == Err::<(), TmpfsError>(e) && final(self).view() == old(self).view(),
            },
    {
        let normalized = match normalize_path(path) {
            Some(n) => n,
            None => return Err(TmpfsError::InvalidPath),
        };
        match ensure_tmpfs_parent(normalized.as_slice()) {
            Ok(()) => {},
            Err(e) => return Err(e),
        }
        if !self.initialized {
            return Err(TmpfsError::NotInitialized);
        }
        let ghost v = self.view();
        match self.find_index(normalized.as_slice()) {
            Some(i) => {
                proof {
                    lemma_find_file_bounds(v, normalized@, 0);
                    lemma_read_after_write(v, normalized@, content@, normalized@);
                }
                let p = copy_chars(self.files[i].path.as_slice());
                let mut c: Vec<u8> = Vec::new();
                crate::fat::append_bytes(&mut c, content);
                self.files.set(i, TmpfsFile { path: p, content: c });
                assert(self.view() =~= v.update(i as int, (normalized@, content@)));
                Ok(())
            },
            None => Err(TmpfsError::NotFound),
        }
    }

    /// Removes a file.
    pub fn unlink_file(&mut self, path: &[char]) -> (r: Result<(), TmpfsError>)
        requires
            old(self).wf(),
        ensures
            final(self).wf(),
            final(self).initialized == old(self).initialized,
            match unlink_check(old(self).initialized, old(self).view(), path@) {
                Ok(n) => r is Ok && final(self).view() == unlink_view(old(self).view(), n),
                Err(e) => r == Err::<(), TmpfsError>(e) && final(self).view() == old(self).view(),
            },
    {
        let normalized = match normalize_path(path) {
            Some(n) => n,
            None => return Err(TmpfsError::InvalidPath),
        };
        if is_root_path(normalized.as_slice()) {
            return Err(TmpfsError::IsDirectory);
        }
        if !self.initialized {
            return Err(TmpfsError::NotInitialized);
        }
        let ghost v = self.view();
        match self.find_index(normalized.as_slice()) {
            Some(i) => {
                proof {
                    lemma_find_file_bounds(v, normalized@, 0);
                    lemma_read_after_unlink(v, normalized@, normalized@);
                }
                let _ = self.files.remove(i);
                assert(self.view() =~= v.remove(i as int));
                Ok(())
            },
            None => Err(TmpfsError::NotFound),
        }
    }

    /// Gives the file at `source_path` the path `destination_path`, replacing any file there.
    pub fn rename_file(&mut self, source_path: &[char], destination_path: &[char]) -> (r: Result<(), TmpfsError>)
        requires
            old(self).wf(),
        ensures
            final(self).wf(),
            final(self).initialized == old(self).initialized,
            match rename_check(old(self).initialized, old(self).view(), source_path@, destination_path@) {
                Ok(None) => r is Ok && final(self).view() == old(self).view(),
                Ok(Some((s, d))) => r is Ok && final(self).view() == rename_view(old(self).view(), s, d),
                Err(e) => r == Err::<(), TmpfsError>(e) && final(self).view() == old(self).view(),
            },
    {
        let source = match normalize_path(source_path) {
            Some(n) => n,
            None => return Err(TmpfsError::InvalidPath),
        };
        let destination = match normalize_path(destination_path) {
            Some(n) => n,
            None => return Err(TmpfsError::InvalidPath),
        };
        match ensure_tmpfs_parent(source.as_slice()) {
            Ok(()) => {},
            Err(e) => return Err(e),
        }
        match ensure_tmpfs_parent(destination.as_slice()) {
            Ok(()) => {},
            Err(e) => return Err(e),
        }
        if is_root_path(source.as_slice()) || is_root_path(destination.as_slice()) {
            return Err(TmpfsError::IsDirectory);
        }
        if chars_eq(source.as_slice(), destination.as_slice()) {
            return Ok(());
        }
        if !self.initialized {
            return Err(TmpfsError::NotInitialized);
        }
        let ghost v = self.view();
        let mut source_index = match self.find_index(source.as_slice()) {
            Some(i) => i,
            None => return Err(TmpfsError::NotFound),
        };
        proof {
            lemma_find_file_bounds(v, source@, 0);
            lemma_find_file_bounds(v, destination@, 0);
            lemma_read_after_unlink(v, destination@, source@);
        }
        let ghost content = v[source_index as int].1;
        match self.find_index(destination.as_slice()) {
            Some(d) => {
                let _ = self.files.remove(d);
                assert(self.view() =~= v.remove(d as int));
                if d < source_index {
                    source_index = source_index - 1;
                }
            },
            None => {},
        }
        let ghost w = self.view();
        proof {
            assert(w == unlink_view(v, destination@));
            assert(w[source_index as int].0 == source@);
            lemma_find_unique(w, source@, source_index as int);
        }
        let c = self.files[source_index].content.clone();
        self.files.set(source_index, TmpfsFile { path: destination, content: c });
        proof {
            assert(self.view() =~= w.update(source_index as int, (destination@, content)));
            lemma_read_after_rename(v, source@, destination@, source@);
        }
        Ok(())
    }

    /// Index of the file at `path`.
    fn find_index(&self, path: &[char]) -> (r: Option<usize>)
        ensures
            r matches Some(i) ==> find_file(self.view(), path@, 0) == Some(i as int),
            r is None ==> find_file(self.view(), path@, 0) is None,
    {
        let mut i: usize = 0;
        while i < self.files.len()
            invariant
                i <= self.files@.len(),
                find_file(self.view(), path@, 0) == find_file(self.view(), path@, i as int),
            decreases self.files@.len() - i,
        {
            if chars_eq(self.files[i].path.as_slice(), path) {
                return Some(i);
            }
            i = i + 1;
        }
        None
    }
}

} // verus!
