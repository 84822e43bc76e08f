//! File paths compared as std's `Path` compares them on Unix: by their
//! components, so `a/b`, `a//b`, `a/./b` and `a/b/` name one file.
use vstd::prelude::*;

use crate::config::texts;

verus! {

/// The pieces of `s` between `/` separators (one more than the separators).
pub open spec fn segments(s: Seq<char>) -> Seq<Seq<char>>
    decreases s.len(),
{
    if s.len() == 0 {
        seq![seq![]]
    } else {
        let rest = segments(s.drop_last());
        if s.last() == '/' {
            rest.push(seq![])
        } else {
            rest.update(rest.len() - 1, rest.last().push(s.last()))
        }
    }
}

/// A piece that is a normal component: neither empty nor `.`.
pub open spec fn is_normal(p: Seq<char>) -> bool {
    p.len() > 0 && p != seq!['.']
}

/// The normal components among the pieces, in order.
pub open spec fn normal_parts(segs: Seq<Seq<char>>) -> Seq<Seq<char>>
    decreases segs.len(),
{
    if segs.len() == 0 {
        seq![]
    } else if is_normal(segs.last()) {
        normal_parts(segs.drop_last()).push(segs.last())
    } else {
        normal_parts(segs.drop_last())
    }
}

pub open spec fn has_root(s: Seq<char>) -> bool {
    s.len() > 0 && s[0] == '/'
}

/// A path without root that starts with the current directory: `.` alone
/// or followed by `/`.
pub open spec fn starts_with_cur_dir(s: Seq<char>) -> bool {
    !has_root(s) && s.len() > 0 && s[0] == '.' && (s.len() == 1 || s[1] == '/')
}

/// The components of a path: the root (written `/`) or a leading current
/// directory (written `.`), then the normal components; `..` is a normal
/// component here, as it compares only with itself.
pub open spec fn path_key(s: Seq<char>) -> Seq<Seq<char>> {
    path_head(s) + normal_parts(segments(s))
}

/// The root or leading current directory of a path, if any.
pub open spec fn path_head(s: Seq<char>) -> Seq<Seq<char>> {
    if has_root(s) {
        seq![seq!['/']]
    } else if starts_with_cur_dir(s) {
        seq![seq!['.']]
    } else {
        seq![]
    }
}

proof fn lemma_segments_nonempty(s: Seq<char>)
    ensures
        segments(s).len() >= 1,
    decreases s.len(),
{
    if s.len() > 0 {
        lemma_segments_nonempty(s.drop_last());
    }
}

fn is_normal_text(p: &String) -> (r: bool)
    ensures
        r == is_normal(p@),
{
    let n = p.as_str().unicode_len();
    if n == 0 {
        false
    } else if n == 1 && p.as_str().get_char(0) == '.' {
        assert(p@ =~= seq!['.']);
        false
    } else {
        assert(n == 1 ==> p@ != seq!['.']);
        true
    }
}

/// The components of a path.
pub fn path_key_of(s: &str) -> (key: Vec<String>)
    ensures
        texts(key@) == path_key(s@),
{
    let n = s.unicode_len();
    let mut key: Vec<String> = Vec::new();
    proof {
        reveal_strlit("/");
        reveal_strlit(".");
        assert("/"@ =~= seq!['/']);
        assert("."@ =~= seq!['.']);
    }
    if n > 0 && s.get_char(0) == '/' {
        key.push(String::from_str("/"));
        assert(key@[0]@ == seq!['/']);
        assert(texts(key@) =~= path_head(s@));
    } else if n > 0 && s.get_char(0) == '.' && (n == 1 || s.get_char(1) == '/') {
        key.push(String::from_str("."));
        assert(key@[0]@ == seq!['.']);
        assert(texts(key@) =~= path_head(s@));
    } else {
        assert(texts(key@) =~= path_head(s@));
    }
    let ghost head = path_head(s@);
    let mut cur = String::new();
    let mut i: usize = 0;
    assert(s@.take(0) =~= Seq::<char>::empty());
    assert(normal_parts(segments(s@.take(0)).drop_last()) =~= Seq::<Seq<char>>::empty());
    assert(texts(key@) =~= head + Seq::<Seq<char>>::empty());
    while i < n
        invariant
            n == s@.len(),
            i <= n,
            head == path_head(s@),
            texts(key@) == head + normal_parts(segments(s@.take(i as int)).drop_last()),
            segments(s@.take(i as int)).len() >= 1,
            cur@ == segments(s@.take(i as int)).last(),
        decreases n - i,
    {
        let c = s.get_char(i);
        let ghost pre = s@.take(i as int);
        let ghost post = s@.take(i + 1);
        assert(post.drop_last() =~= pre);
        assert(post.last() == c);
        let ghost segs = segments(pre);
        let ghost before = texts(key@);
        if c == '/' {
            assert(segments(post) == segs.push(seq![]));
            assert(segments(post).drop_last() =~= segs);
            assert(segs.drop_last().push(segs.last()) =~= segs);
            if is_normal_text(&cur) {
                key.push(cur);
                assert(texts(key@) =~= before.push(segs.last()));
                assert(head + normal_parts(segs) =~= (head + normal_parts(segs.drop_last())).push(
                    segs.last(),
                ));
            }
            cur = String::new();
            assert(segments(post).last() =~= Seq::<char>::empty());
        } else {
            cur.push(c);
            assert(segments(post) == segs.update(segs.len() - 1, segs.last().push(c)));
            assert(segments(post).drop_last() =~= segs.drop_last());
            assert(segments(post).last() == segs.last().push(c));
        }
        proof {
            lemma_segments_nonempty(post);
        }
        i = i + 1;
    }
    assert(s@.take(n as int) =~= s@);
    let ghost segs = segments(s@);
    let ghost before = texts(key@);
    assert(segs.drop_last().push(segs.last()) =~= segs);
    if is_normal_text(&cur) {
        key.push(cur);
        assert(texts(key@) =~= before.push(segs.last()));
        assert(head + normal_parts(segs) =~= (head + normal_parts(segs.drop_last())).push(
            segs.last(),
        ));
    }
    assert(texts(key@) =~= path_key(s@));
    key
}

/// Whether two lists of texts are equal.
pub fn texts_eq(a: &Vec<String>, b: &Vec<String>) -> (r: bool)
    ensures
        r == (texts(a@) == texts(b@)),
{
    if a.len() != b.len() {
        assert(texts(a@).len() != texts(b@).len());
        return false;
    }
    let mut i: usize = 0;
    while i < a.len()
        invariant
            a@.len() == b@.len(),
            i <= a@.len(),
            forall|k: int| 0 <= k < i ==> a@[k]@ == b@[k]@,
        decreases a@.len() - i,
    {
        if a[i] != b[i] {
            assert(texts(a@)[i as int] != texts(b@)[i as int]);
            return false;
        }
        i = i + 1;
    }
    assert(texts(a@) =~= texts(b@));
    true
}

} // verus!
