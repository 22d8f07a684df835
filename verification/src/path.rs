//! Resolution of a request path against the content root.
//!
//! A request path is cut at each `/`, its segments are folded onto a stack (`.`
//! and empty segments are skipped, `..` removes the last name), and the path is
//! refused as soon as `..` would remove a name that is not there. What is left
//! is a list of plain names, so the resolved path lies under the root.

use vstd::prelude::*;
use vstd::string::*;
use crate::error::GatewayError;
use crate::text::{names, lemma_names_push, str_eq};

verus! {

/// The segments of `s` between its `/` characters; a path of n slashes has n + 1.
pub open spec fn split_path(s: Seq<char>) -> Seq<Seq<char>>
    decreases s.len(),
{
    if s.len() == 0 {
        seq![Seq::<char>::empty()]
    } else {
        let before = split_path(s.drop_last());
        if s.last() == '/' {
            before.push(Seq::<char>::empty())
        } else {
            before.drop_last().push(before.last().push(s.last()))
        }
    }
}

/// The segment `.`.
pub open spec fn is_dot(seg: Seq<char>) -> bool {
    seg.len() == 1 && seg[0] == '.'
}

/// The segment `..`.
pub open spec fn is_dotdot(seg: Seq<char>) -> bool {
    seg.len() == 2 && seg[0] == '.' && seg[1] == '.'
}

/// A segment that names an entry: not empty, neither `.` nor `..`.
pub open spec fn is_name(seg: Seq<char>) -> bool {
    seg.len() > 0 && !is_dot(seg) && !is_dotdot(seg)
}

/// A name that can stand in a resolved path: it names an entry and holds
/// neither a separator nor a NUL.
pub open spec fn is_plain_name(seg: Seq<char>) -> bool {
    is_name(seg) && !seg.contains('/') && !seg.contains('\0')
}

/// One step of normalization: what the stack of names becomes after `seg`, or
/// `None` where `seg` is `..` and no name is left to remove.
pub open spec fn normalize_step(stack: Seq<Seq<char>>, seg: Seq<char>) -> Option<Seq<Seq<char>>> {
    if is_dotdot(seg) {
        if stack.len() == 0 {
            None
        } else {
            Some(stack.drop_last())
        }
    } else if is_name(seg) {
        Some(stack.push(seg))
    } else {
        Some(stack)
    }
}

/// The names that are left of `segs`, or `None` where they lead out of the root.
pub open spec fn normalize(segs: Seq<Seq<char>>) -> Option<Seq<Seq<char>>>
    decreases segs.len(),
{
    if segs.len() == 0 {
        Some(Seq::empty())
    } else {
        match normalize(segs.drop_last()) {
            None => None,
            Some(stack) => normalize_step(stack, segs.last()),
        }
    }
}

/// How many levels below the root `segs` ends, counted without regard to the
/// root: each name goes one down, each `..` one up.
pub open spec fn net_depth(segs: Seq<Seq<char>>) -> int
    decreases segs.len(),
{
    if segs.len() == 0 {
        0
    } else if is_dotdot(segs.last()) {
        net_depth(segs.drop_last()) - 1
    } else if is_name(segs.last()) {
        net_depth(segs.drop_last()) + 1
    } else {
        net_depth(segs.drop_last())
    }
}

/// Whether some prefix of `segs` ends above the root.
pub open spec fn escapes_root(segs: Seq<Seq<char>>) -> bool {
    exists|k: int| 0 <= k <= segs.len() && #[trigger] net_depth(segs.take(k)) < 0
}

/// The characters of `segs`, each segment behind a `/`.
pub open spec fn joined(segs: Seq<Seq<char>>) -> Seq<char>
    decreases segs.len(),
{
    if segs.len() == 0 {
        Seq::empty()
    } else {
        joined(segs.drop_last()) + seq!['/'] + segs.last()
    }
}

/// The characters of `segs` with a `/` between them.
pub open spec fn relative_of(segs: Seq<Seq<char>>) -> Seq<char> {
    if segs.len() == 0 {
        Seq::empty()
    } else {
        joined(segs).drop_first()
    }
}

/// Whether `s` holds a character that no path may hold.
pub open spec fn has_invalid_char(s: Seq<char>) -> bool {
    s.contains('\0')
}

/// Whether the request path `s` resolves: it holds no forbidden character and
/// its segments stay under the root.
pub open spec fn resolvable(s: Seq<char>) -> bool {
    !has_invalid_char(s) && normalize(split_path(s)) is Some
}

/// The names that the request path `s` resolves to.
pub open spec fn resolved_names(s: Seq<char>) -> Seq<Seq<char>>
    recommends
        resolvable(s),
{
    normalize(split_path(s))->0
}

/// No segment of a split path holds a separator, and each of its characters is
/// one of the path.
pub proof fn lemma_split_segments_clean(s: Seq<char>)
    ensures
        split_path(s).len() >= 1,
        forall|i: int|
            0 <= i < split_path(s).len() ==> !(#[trigger] split_path(s)[i]).contains('/'),
        forall|i: int, c: char|
            0 <= i < split_path(s).len() && (#[trigger] split_path(s)[i]).contains(c)
                ==> #[trigger] s.contains(c),
    decreases s.len(),
{
    if s.len() > 0 {
        let t = s.drop_last();
        lemma_split_segments_clean(t);
        let before = split_path(t);
        let after = split_path(s);
        assert forall|i: int, c: char|
            0 <= i < after.len() && (#[trigger] after[i]).contains(c) implies #[trigger] s.contains(
            c,
        ) by {
            let j = choose|j: int| 0 <= j < after[i].len() && after[i][j] == c;
            if s.last() != '/' && i == after.len() - 1 {
                if j == after[i].len() - 1 {
                    assert(s[s.len() - 1] == c);
                } else {
                    assert(before[i][j] == c);
                    assert(before[i].contains(c));
                    assert(t.contains(c));
                    let k = choose|k: int| 0 <= k < t.len() && t[k] == c;
                    assert(s[k] == c);
                }
            } else {
                assert(before[i][j] == c);
                assert(before[i].contains(c));
                assert(t.contains(c));
                let k = choose|k: int| 0 <= k < t.len() && t[k] == c;
                assert(s[k] == c);
            }
        }
        assert forall|i: int| 0 <= i < after.len() implies !(#[trigger] after[i]).contains(
            '/',
        ) by {
            if after[i].contains('/') {
                let j = choose|j: int| 0 <= j < after[i].len() && after[i][j] == '/';
                if s.last() != '/' && i == after.len() - 1 {
                    assert(j < after[i].len() - 1);
                    assert(before[i][j] == '/');
                    assert(before[i].contains('/'));
                } else if i < before.len() {
                    assert(before[i][j] == '/');
                    assert(before[i].contains('/'));
                }
            }
        }
    }
}

/// Every name that normalization keeps is a name of the input.
pub proof fn lemma_normalize_keeps_names(segs: Seq<Seq<char>>)
    requires
        normalize(segs) is Some,
    ensures
        forall|i: int|
            0 <= i < normalize(segs)->0.len() ==> is_name(#[trigger] normalize(segs)->0[i])
                && segs.contains(normalize(segs)->0[i]),
    decreases segs.len(),
{
    if segs.len() > 0 {
        let t = segs.drop_last();
        lemma_normalize_keeps_names(t);
        let stack = normalize(t)->0;
        let out = normalize(segs)->0;
        assert forall|i: int| 0 <= i < out.len() implies is_name(#[trigger] out[i])
            && segs.contains(out[i]) by {
            if i < stack.len() && out[i] == stack[i] {
                assert(t.contains(stack[i]));
                let k = choose|k: int| 0 <= k < t.len() && t[k] == stack[i];
                assert(segs[k] == out[i]);
            } else {
                assert(out[i] == segs.last());
                assert(segs[segs.len() - 1] == out[i]);
            }
        }
    }
}

/// Containment: a request path that resolves does so to plain names only, so
/// the resolved path is the root followed by names of entries, with no `..`,
/// no `.`, no empty segment, no separator inside a name and no NUL.
pub proof fn lemma_resolved_is_contained(s: Seq<char>)
    requires
        resolvable(s),
    ensures
        forall|i: int|
            0 <= i < resolved_names(s).len() ==> is_plain_name(#[trigger] resolved_names(s)[i]),
{
    let segs = split_path(s);
    lemma_split_segments_clean(s);
    lemma_normalize_keeps_names(segs);
    let out = resolved_names(s);
    assert forall|i: int| 0 <= i < out.len() implies is_plain_name(#[trigger] out[i]) by {
        assert(segs.contains(out[i]));
        let k = choose|k: int| 0 <= k < segs.len() && segs[k] == out[i];
        assert(!segs[k].contains('/'));
        if segs[k].contains('\0') {
            assert(s.contains('\0'));
        }
    }
}

/// While normalization succeeds, the stack is as deep as the net depth says.
pub proof fn lemma_normalize_depth(segs: Seq<Seq<char>>)
    ensures
        normalize(segs) is Some ==> (normalize(segs)->0).len() == net_depth(segs),
        normalize(segs) is Some ==> forall|k: int|
            0 <= k <= segs.len() ==> #[trigger] net_depth(segs.take(k)) >= 0,
        normalize(segs) is None ==> escapes_root(segs),
    decreases segs.len(),
{
    if segs.len() == 0 {
        assert forall|k: int| 0 <= k <= segs.len() implies #[trigger] net_depth(segs.take(k))
            >= 0 by {
            assert(segs.take(k) =~= segs);
        }
    } else {
        let t = segs.drop_last();
        lemma_normalize_depth(t);
        if normalize(t) is None {
            let k = choose|k: int| 0 <= k <= t.len() && #[trigger] net_depth(t.take(k)) < 0;
            assert(segs.take(k) =~= t.take(k));
        } else if normalize(segs) is None {
            assert(segs.take(segs.len() as int) =~= segs);
            assert(net_depth(segs.take(segs.len() as int)) < 0);
        } else {
            assert forall|k: int| 0 <= k <= segs.len() implies #[trigger] net_depth(
                segs.take(k),
            ) >= 0 by {
                if k == segs.len() {
                    assert(segs.take(k) =~= segs);
                } else {
                    assert(segs.take(k) =~= t.take(k));
                }
            }
        }
    }
}

/// Exactly the request paths that lead above the root, or hold a forbidden
/// character, are refused: a path fails to resolve if and only if it holds a
/// NUL or some prefix of its segments has more `..` than names.
pub proof fn lemma_rejects_exactly_escapes(s: Seq<char>)
    ensures
        !resolvable(s) <==> has_invalid_char(s) || escapes_root(split_path(s)),
{
    lemma_normalize_depth(split_path(s));
}

/// A path under the content root: the root as it was configured, and the names
/// that lead from it to the entry.
pub struct ResolvedPath {
    root: String,
    segments: Vec<String>,
}

impl ResolvedPath {
    /// The root's characters.
    pub closed spec fn root(&self) -> Seq<char> {
        self.root@
    }

    /// The names below the root, outermost first.
    pub closed spec fn segments(&self) -> Seq<Seq<char>> {
        names(self.segments@)
    }

    /// Every segment is a plain name: the path cannot leave its root.
    pub open spec fn wf(&self) -> bool {
        forall|i: int| 0 <= i < self.segments().len() ==> is_plain_name(#[trigger] self.segments()[i])
    }

    /// The path as the file system takes it: the root, then each name behind a `/`.
    pub open spec fn full(&self) -> Seq<char> {
        self.root() + joined(self.segments())
    }

    /// Whether the path is the root itself.
    pub fn is_root(&self) -> (r: bool)
        ensures
            r == (self.segments().len() == 0),
    {
        self.segments.len() == 0
    }

    /// How many names lie between the root and the entry.
    pub fn depth(&self) -> (n: usize)
        ensures
            n == self.segments().len(),
    {
        self.segments.len()
    }

    /// The path below the root, with `/` between the names; empty for the root.
    pub fn relative(&self) -> (r: String)
        ensures
            r@ == relative_of(self.segments()),
    {
        let mut out = String::new();
        let mut i: usize = 0;
        while i < self.segments.len()
            invariant
                i <= self.segments@.len(),
                out@ == relative_of(names(self.segments@).take(i as int)),
            decreases self.segments@.len() - i,
        {
            proof {
                let all = names(self.segments@);
                let next = all.take(i + 1);
                assert(next.drop_last() =~= all.take(i as int));
                assert(next.last() == self.segments@[i as int]@);
                if i == 0 {
                    assert(joined(all.take(0)) =~= Seq::<char>::empty());
                    assert(joined(next).drop_first() =~= next.last());
                } else {
                    let prev = all.take(i as int);
                    assert(joined(prev).len() > 0);
                    assert(joined(next).drop_first() =~= joined(prev).drop_first() + seq!['/']
                        + next.last());
                }
            }
            if i > 0 {
                out.append("/");
                proof {
                    reveal_strlit("/");
                    assert("/"@ =~= seq!['/']);
                }
            }
            out.append(self.segments[i].as_str());
            i += 1;
        }
        proof {
            assert(names(self.segments@).take(self.segments@.len() as int) =~= names(
                self.segments@,
            ));
        }
        out
    }

    /// The names behind `base`, each behind a `/`.
    pub fn rooted_at(&self, base: &str) -> (r: String)
        ensures
            r@ == base@ + joined(self.segments()),
    {
        let mut out = base.to_owned();
        let mut i: usize = 0;
        proof {
            assert(names(self.segments@).take(0) =~= Seq::<Seq<char>>::empty());
            assert(base@ + joined(Seq::<Seq<char>>::empty()) =~= base@);
        }
        while i < self.segments.len()
            invariant
                i <= self.segments@.len(),
                out@ == base@ + joined(names(self.segments@).take(i as int)),
            decreases self.segments@.len() - i,
        {
            proof {
                let all = names(self.segments@);
                let next = all.take(i + 1);
                assert(next.drop_last() =~= all.take(i as int));
                assert(next.last() == self.segments@[i as int]@);
                reveal_strlit("/");
                assert("/"@ =~= seq!['/']);
                assert(base@ + joined(next) =~= base@ + joined(all.take(i as int)) + seq!['/']
                    + next.last());
            }
            out.append("/");
            out.append(self.segments[i].as_str());
            i += 1;
        }
        proof {
            assert(names(self.segments@).take(self.segments@.len() as int) =~= names(
                self.segments@,
            ));
        }
        out
    }

    /// The path for the file system: the root, then each name behind a `/`.
    pub fn full_path(&self) -> (r: String)
        ensures
            r@ == self.full(),
    {
        self.rooted_at(self.root.as_str())
    }

    /// The last name of the path, or `None` for the root.
    pub fn file_name(&self) -> (r: Option<String>)
        ensures
            match r {
                Some(n) => self.segments().len() > 0 && n@ == self.segments().last(),
                None => self.segments().len() == 0,
            },
    {
        let n = self.segments.len();
        if n == 0 {
            None
        } else {
            Some(self.segments[n - 1].clone())
        }
    }

    /// The path of the directory that holds this entry, or `None` for the root.
    pub fn parent(&self) -> (r: Option<ResolvedPath>)
        ensures
            match r {
                Some(p) => self.segments().len() > 0 && p.root() == self.root() && p.segments()
                    == self.segments().drop_last() && (self.wf() ==> p.wf()),
                None => self.segments().len() == 0,
            },
    {
        let n = self.segments.len();
        if n == 0 {
            return None;
        }
        let kept = copy_prefix(&self.segments, n - 1);
        let p = ResolvedPath { root: self.root.clone(), segments: kept };
        proof {
            assert(names(self.segments@).take(n - 1) =~= names(self.segments@).drop_last());
            if self.wf() {
                assert forall|i: int| 0 <= i < p.segments().len() implies is_plain_name(
                    #[trigger] p.segments()[i],
                ) by {
                    assert(p.segments()[i] == self.segments()[i]);
                }
            }
        }
        Some(p)
    }

    /// The path of the entry `name` inside this directory, where `name` is a
    /// plain name; `InvalidPath` where it is not.
    pub fn child(&self, name: &str) -> (r: Result<ResolvedPath, GatewayError>)
        ensures
            match r {
                Ok(p) => is_plain_name(name@) && p.root() == self.root() && p.segments()
                    == self.segments().push(name@) && (self.wf() ==> p.wf()),
                Err(e) => !is_plain_name(name@) && e is InvalidPath,
            },
    {
        if !check_plain_name(name) {
            return Err(GatewayError::InvalidPath);
        }
        let mut segs = copy_prefix(&self.segments, self.segments.len());
        proof {
            assert(names(self.segments@).take(self.segments@.len() as int) =~= names(
                self.segments@,
            ));
        }
        let owned = name.to_owned();
        proof {
            lemma_names_push(segs@, owned);
        }
        segs.push(owned);
        let p = ResolvedPath { root: self.root.clone(), segments: segs };
        proof {
            if self.wf() {
                assert forall|i: int| 0 <= i < p.segments().len() implies is_plain_name(
                    #[trigger] p.segments()[i],
                ) by {
                    if i < self.segments().len() {
                        assert(p.segments()[i] == self.segments()[i]);
                    }
                }
            }
        }
        Ok(p)
    }
}

/// A copy of the first `n` strings of `v`.
fn copy_prefix(v: &Vec<String>, n: usize) -> (r: Vec<String>)
    requires
        n <= v@.len(),
    ensures
        names(r@) == names(v@).take(n as int),
{
    let mut kept: Vec<String> = Vec::new();
    let mut i: usize = 0;
    proof {
        assert(names(kept@) =~= names(v@).take(0));
    }
    while i < n
        invariant
            n <= v@.len(),
            i <= n,
            names(kept@) == names(v@).take(i as int),
        decreases n - i,
    {
        let seg = v[i].clone();
        proof {
            lemma_names_push(kept@, seg);
            assert(names(v@).take(i + 1) =~= names(v@).take(i as int).push(seg@));
        }
        kept.push(seg);
        i += 1;
    }
    kept
}

/// Whether `s` holds the character `c`.
pub fn holds_char(s: &str, c: char) -> (r: bool)
    ensures
        r == s@.contains(c),
{
    let n = s.unicode_len();
    let mut i: usize = 0;
    while i < n
        invariant
            n == s@.len(),
            i <= n,
            forall|j: int| 0 <= j < i ==> s@[j] != c,
        decreases n - i,
    {
        if s.get_char(i) == c {
            return true;
        }
        i += 1;
    }
    false
}

/// Whether `seg` is `..`.
pub fn check_dotdot(seg: &str) -> (r: bool)
    ensures
        r == is_dotdot(seg@),
{
    seg.unicode_len() == 2 && seg.get_char(0) == '.' && seg.get_char(1) == '.'
}

/// Whether `seg` names an entry.
pub fn check_name(seg: &str) -> (r: bool)
    ensures
        r == is_name(seg@),
{
    let n = seg.unicode_len();
    if n == 0 {
        false
    } else if n == 1 {
        seg.get_char(0) != '.'
    } else if n == 2 {
        !(seg.get_char(0) == '.' && seg.get_char(1) == '.')
    } else {
        true
    }
}

/// Whether `seg` can stand in a resolved path as it is.
pub fn check_plain_name(seg: &str) -> (r: bool)
    ensures
        r == is_plain_name(seg@),
{
    check_name(seg) && !holds_char(seg, '/') && !holds_char(seg, '\0')
}

/// Cuts `s` at each `/`.
pub fn split_segments(s: &str) -> (segs: Vec<String>)
    ensures
        names(segs@) == split_path(s@),
{
    let n = s.unicode_len();
    let mut segs: Vec<String> = Vec::new();
    let mut start: usize = 0;
    let mut i: usize = 0;
    proof {
        assert(s@.take(0).len() == 0);
        assert(s@.subrange(0, 0) =~= Seq::<char>::empty());
        assert(names(segs@).push(s@.subrange(0, 0)) =~= seq![Seq::<char>::empty()]);
    }
    while i < n
        invariant
            n == s@.len(),
            start <= i <= n,
            split_path(s@.take(i as int)) == names(segs@).push(
                s@.subrange(start as int, i as int),
            ),
        decreases n - i,
    {
        let c = s.get_char(i);
        proof {
            assert(s@.take(i + 1).drop_last() =~= s@.take(i as int));
            assert(s@.take(i + 1).last() == c);
        }
        if c == '/' {
            let seg = s.substring_char(start, i).to_owned();
            proof {
                lemma_names_push(segs@, seg);
                assert(s@.subrange(i + 1, i + 1) =~= Seq::<char>::empty());
            }
            segs.push(seg);
            start = i + 1;
        } else {
            proof {
                let cur = s@.subrange(start as int, i as int);
                assert(s@.subrange(start as int, i + 1) =~= cur.push(c));
                assert(names(segs@).push(cur).drop_last() =~= names(segs@));
            }
        }
        i += 1;
    }
    let seg = s.substring_char(start, n).to_owned();
    proof {
        lemma_names_push(segs@, seg);
        assert(s@.take(n as int) =~= s@);
    }
    segs.push(seg);
    segs
}

/// Folds `segs` onto a stack of names; `None` where they lead out of the root.
pub fn normalize_segments(segs: &Vec<String>) -> (r: Option<Vec<String>>)
    ensures
        match r {
            Some(v) => normalize(names(segs@)) == Some(names(v@)),
            None => normalize(names(segs@)) is None,
        },
{
    let mut stack: Vec<String> = Vec::new();
    let mut i: usize = 0;
    proof {
        assert(names(stack@) =~= Seq::<Seq<char>>::empty());
        assert(names(segs@).take(0) =~= Seq::<Seq<char>>::empty());
    }
    while i < segs.len()
        invariant
            i <= segs@.len(),
            normalize(names(segs@).take(i as int)) == Some(names(stack@)),
        decreases segs@.len() - i,
    {
        let seg = &segs[i];
        proof {
            let next = names(segs@).take(i + 1);
            assert(next.drop_last() =~= names(segs@).take(i as int));
            assert(next.last() == seg@);
        }
        if check_dotdot(seg.as_str()) {
            if stack.len() == 0 {
                proof {
                    lemma_normalize_none_extends(names(segs@), i + 1);
                }
                return None;
            }
            proof {
                assert(names(stack@.drop_last()) =~= names(stack@).drop_last());
            }
            stack.pop();
        } else if check_name(seg.as_str()) {
            let owned = seg.clone();
            proof {
                lemma_names_push(stack@, owned);
            }
            stack.push(owned);
        }
        i += 1;
    }
    proof {
        assert(names(segs@).take(segs@.len() as int) =~= names(segs@));
    }
    Some(stack)
}

/// Cutting a path that ends in `/` and a name without separator gives the
/// segments of what stands before, and the name.
pub proof fn lemma_split_appended_name(before: Seq<char>, name: Seq<char>)
    requires
        !name.contains('/'),
    ensures
        split_path(before + seq!['/'] + name) == split_path(before).push(name),
    decreases name.len(),
{
    let whole = before + seq!['/'] + name;
    if name.len() == 0 {
        assert(whole.drop_last() =~= before);
        assert(name =~= Seq::<char>::empty());
    } else {
        let shorter = name.drop_last();
        assert forall|c: char| shorter.contains(c) implies name.contains(c) by {
            let i = choose|i: int| 0 <= i < shorter.len() && shorter[i] == c;
            assert(name[i] == c);
        }
        lemma_split_appended_name(before, shorter);
        assert(whole.drop_last() =~= before + seq!['/'] + shorter);
        assert(whole.last() == name.last());
        assert(name[name.len() - 1] != '/');
        let cut = split_path(before).push(shorter);
        assert(cut.drop_last() =~= split_path(before));
        assert(cut.last().push(name.last()) =~= name);
    }
}

/// Nothing is refused that lies under the root: the path that writes plain
/// names out, each behind a `/`, resolves, and it resolves to these names.
pub proof fn lemma_plain_names_resolve(segs: Seq<Seq<char>>)
    requires
        forall|i: int| 0 <= i < segs.len() ==> is_plain_name(#[trigger] segs[i]),
    ensures
        split_path(joined(segs)) == seq![Seq::<char>::empty()] + segs,
        resolvable(joined(segs)),
        resolved_names(joined(segs)) == segs,
    decreases segs.len(),
{
    let lead = seq![Seq::<char>::empty()];
    if segs.len() == 0 {
        assert(split_path(joined(segs)) =~= lead + segs);
        assert(lead.drop_last() =~= Seq::<Seq<char>>::empty());
        assert(normalize(lead.drop_last()) == Some(Seq::<Seq<char>>::empty()));
        assert(normalize(lead) == Some(segs));
    } else {
        let front = segs.drop_last();
        let name = segs.last();
        assert forall|i: int| 0 <= i < front.len() implies is_plain_name(#[trigger] front[i]) by {
            assert(front[i] == segs[i]);
        }
        lemma_plain_names_resolve(front);
        assert(is_plain_name(segs[segs.len() - 1]));
        lemma_split_appended_name(joined(front), name);
        let cut = lead + segs;
        assert(split_path(joined(segs)) =~= cut);
        assert(cut.drop_last() =~= lead + front);
        assert(cut.last() == name);
        assert(front.push(name) =~= segs);
        assert(normalize(cut) == Some(segs));
        if joined(segs).contains('\0') {
            let k = choose|k: int| 0 <= k < joined(segs).len() && joined(segs)[k] == '\0';
            if k < joined(front).len() {
                assert(joined(front)[k] == '\0');
            } else if k > joined(front).len() {
                assert(name[k - joined(front).len() - 1] == '\0');
            }
        }
    }
}

/// Once a prefix leads out of the root, so does the whole.
pub proof fn lemma_normalize_none_extends(segs: Seq<Seq<char>>, k: int)
    requires
        0 <= k <= segs.len(),
        normalize(segs.take(k)) is None,
    ensures
        normalize(segs) is None,
    decreases segs.len() - k,
{
    if k == segs.len() {
        assert(segs.take(k) =~= segs);
    } else {
        assert(segs.take(k + 1).drop_last() =~= segs.take(k));
        lemma_normalize_none_extends(segs, k + 1);
    }
}

/// Resolves the percent-decoded request path `requested` under `root`.
///
/// Succeeds exactly on the paths that hold no NUL and whose segments stay under
/// the root; the result then holds the normalized names, all of them plain. Any
/// other path is refused with `InvalidPath`. The empty path is the root itself.
pub fn resolve(root: &str, requested: &str) -> (r: Result<ResolvedPath, GatewayError>)
    ensures
        match r {
            Ok(p) => resolvable(requested@) && p.root() == root@ && p.segments()
                == resolved_names(requested@) && p.wf(),
            Err(e) => !resolvable(requested@) && e is InvalidPath,
        },
{
    if holds_char(requested, '\0') {
        return Err(GatewayError::InvalidPath);
    }
    let segs = split_segments(requested);
    match normalize_segments(&segs) {
        None => Err(GatewayError::InvalidPath),
        Some(stack) => {
            proof {
                lemma_resolved_is_contained(requested@);
            }
            Ok(ResolvedPath { root: root.to_owned(), segments: stack })
        },
    }
}

/// The path of one more name behind `segs`.
pub proof fn lemma_joined_push(segs: Seq<Seq<char>>, name: Seq<char>)
    ensures
        joined(segs.push(name)) == joined(segs) + seq!['/'] + name,
{
    assert(segs.push(name).drop_last() =~= segs);
}

/// Whether `b` begins with the names of `a`.
pub open spec fn begins_with(b: Seq<Seq<char>>, a: Seq<Seq<char>>) -> bool {
    a.len() <= b.len() && forall|i: int| 0 <= i < a.len() ==> a[i] == b[i]
}

/// Whether the path `candidate` names the directory `root` or something below
/// it: both resolve, and the names of `root` are the first names of
/// `candidate`.
pub open spec fn lies_under(root: Seq<char>, candidate: Seq<char>) -> bool {
    resolvable(root) && resolvable(candidate) && begins_with(
        resolved_names(candidate),
        resolved_names(root),
    )
}

/// Whether `candidate` lies under `root`, name by name. This is the test for
/// two paths that the file system has made canonical: a prefix of characters
/// would take `/srv/www2` for a part of `/srv/www`.
pub fn is_descendant(root: &str, candidate: &str) -> (r: bool)
    ensures
        r == lies_under(root@, candidate@),
{
    let above = match resolve("", root) {
        Ok(p) => p,
        Err(_) => {
            return false;
        },
    };
    let below = match resolve("", candidate) {
        Ok(p) => p,
        Err(_) => {
            return false;
        },
    };
    let n = above.segments.len();
    if n > below.segments.len() {
        return false;
    }
    let mut i: usize = 0;
    while i < n
        invariant
            n == above.segments@.len(),
            n <= below.segments@.len(),
            i <= n,
            above.segments() == resolved_names(root@),
            below.segments() == resolved_names(candidate@),
            forall|j: int| 0 <= j < i ==> above.segments()[j] == below.segments()[j],
        decreases n - i,
    {
        if !str_eq(above.segments[i].as_str(), below.segments[i].as_str()) {
            proof {
                assert(above.segments()[i as int] != below.segments()[i as int]);
            }
            return false;
        }
        i += 1;
    }
    true
}

/// The empty request path resolves to the root itself.
pub proof fn lemma_empty_is_root()
    ensures
        resolvable(Seq::<char>::empty()),
        resolved_names(Seq::<char>::empty()).len() == 0,
{
    let e = Seq::<char>::empty();
    let segs = split_path(e);
    assert(segs =~= seq![e]);
    assert(segs.drop_last() =~= Seq::<Seq<char>>::empty());
    assert(normalize(segs.drop_last()) == Some(Seq::<Seq<char>>::empty()));
    assert(segs.last() == e);
}

} // verus!
