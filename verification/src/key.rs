//! Hierarchical keys and their mapping to storage locations.
//!
//! A key is an ordered, non-empty sequence of UTF-8 segment strings. A
//! segment may not be empty, may not contain a path separator, and may not
//! be `.` or `..`, so that the mapping from keys to nested storage paths is
//! deterministic and never escapes the storage root.

use vstd::prelude::*;
use vstd::string::StrSliceExecFns;
use vstd::string::StringExecFns;

verus! {

/// A single path component of a hierarchical key is acceptable when it is
/// non-empty, free of path separators, and not a relative-directory name.
pub open spec fn valid_segment(s: Seq<char>) -> bool {
    &&& s.len() > 0
    &&& (forall|i: int| 0 <= i < s.len() ==> s[i] != '/' && s[i] != '\\')
    &&& s != seq!['.']
    &&& s != seq!['.', '.']
}

/// A key is well formed when it has at least one segment and every segment
/// is acceptable.
pub open spec fn valid_segments(segs: Seq<Seq<char>>) -> bool {
    &&& segs.len() > 0
    &&& (forall|i: int| 0 <= i < segs.len() ==> valid_segment(#[trigger] segs[i]))
}

/// Rejected segment sequences: empty keys, empty segments, segments holding
/// a path separator, and the relative-directory names `.` and `..`.
#[derive(Clone, Copy, Debug, PartialEq, Eq, Structural)]
pub struct InvalidKeyError;

/// An immutable hierarchical key. Two keys are equal exactly when their
/// segment sequences are equal element-wise.
#[derive(Debug)]
pub struct Key {
    segments: Vec<String>,
}

impl View for Key {
    type V = Seq<Seq<char>>;

    closed spec fn view(&self) -> Seq<Seq<char>> {
        self.segments.deep_view()
    }
}

/// Decides whether one segment is acceptable as a key component.
fn segment_is_valid(s: &str) -> (r: bool)
    ensures
        r == valid_segment(s@),
{
    let n = s.unicode_len();
    if n == 0 {
        return false;
    }
    if n == 1 && s.get_char(0) == '.' {
        proof {
            assert(s@ =~= seq!['.']);
        }
        return false;
    }
    if n == 2 && s.get_char(0) == '.' && s.get_char(1) == '.' {
        proof {
            assert(s@ =~= seq!['.', '.']);
        }
        return false;
    }
    let mut i: usize = 0;
    while i < n
        invariant
            n == s@.len(),
            i <= n,
            forall|j: int| 0 <= j < i ==> s@[j] != '/' && s@[j] != '\\',
        decreases n - i,
    {
        let c = s.get_char(i);
        if c == '/' || c == '\\' {
            return false;
        }
        i = i + 1;
    }
    proof {
        assert(s@.len() != 1 || s@[0] != '.');
        assert(s@ != seq!['.']);
        assert(s@ != seq!['.', '.']);
    }
    true
}

impl Key {
    /// Builds a key from its segments, rejecting any segment sequence that
    /// would map to an ambiguous or escaping storage location.
    pub fn key_from_segments(segments: Vec<String>) -> (r: Result<Key, InvalidKeyError>)
        ensures
            match r {
                Ok(k) => valid_segments(segments.deep_view()) && k@ == segments.deep_view(),
                Err(_) => !valid_segments(segments.deep_view()),
            },
    {
        if segments.len() == 0 {
            return Err(InvalidKeyError);
        }
        let n = segments.len();
        let mut i: usize = 0;
        while i < n
            invariant
                n == segments@.len(),
                i <= n,
                forall|j: int| 0 <= j < i ==> valid_segment(#[trigger] segments.deep_view()[j]),
            decreases n - i,
        {
            if !segment_is_valid(segments[i].as_str()) {
                proof {
                    assert(segments.deep_view()[i as int] == segments@[i as int]@);
                }
                return Err(InvalidKeyError);
            }
            proof {
                assert(segments.deep_view()[i as int] == segments@[i as int]@);
            }
            i = i + 1;
        }
        Ok(Key { segments })
    }

    /// True when every segment of this key is acceptable; all keys built by
    /// this module satisfy it.
    pub open spec fn wf(&self) -> bool {
        valid_segments(self@)
    }

    /// The segments the key was built from.
    pub fn segments(&self) -> (r: &Vec<String>)
        ensures
            r.deep_view() == self@,
    {
        &self.segments
    }

    /// Consumes the key and hands its segments back.
    pub fn into_segments(self) -> (r: Vec<String>)
        ensures
            r.deep_view() == self@,
    {
        self.segments
    }

    /// A fresh key with the same segments.
    pub fn duplicate(&self) -> (r: Key)
        ensures
            r@ == self@,
    {
        let n = self.segments.len();
        let mut segments: Vec<String> = Vec::new();
        let mut i: usize = 0;
        while i < n
            invariant
                n == self.segments@.len(),
                i <= n,
                segments@.len() == i,
                forall|j: int| 0 <= j < i ==> segments@[j]@ == #[trigger] self.segments@[j]@,
            decreases n - i,
        {
            segments.push(self.segments[i].clone());
            i = i + 1;
        }
        let r = Key { segments };
        proof {
            assert(r@ =~= self@);
        }
        r
    }

    /// Element-wise equality of two keys.
    pub fn equals(&self, other: &Key) -> (r: bool)
        ensures
            r == (self@ == other@),
    {
        if self.segments.len() != other.segments.len() {
            proof {
                assert(self@.len() == self.segments@.len());
                assert(other@.len() == other.segments@.len());
            }
            return false;
        }
        let n = self.segments.len();
        let mut i: usize = 0;
        while i < n
            invariant
                n == self.segments@.len() == other.segments@.len(),
                i <= n,
                forall|j: int| 0 <= j < i ==> self.segments@[j]@ == #[trigger] other.segments@[j]@,
            decreases n - i,
        {
            if !(self.segments[i] == other.segments[i]) {
                proof {
                    assert(self@[i as int] == self.segments@[i as int]@);
                    assert(other@[i as int] == other.segments@[i as int]@);
                }
                return false;
            }
            i = i + 1;
        }
        proof {
            assert(self@ =~= other@);
        }
        true
    }
}

/// The segments of a key joined as nested path components: a separator
/// before each segment, in order.
pub open spec fn joined_segments(segs: Seq<Seq<char>>) -> Seq<char>
    decreases segs.len(),
{
    if segs.len() == 0 {
        Seq::empty()
    } else {
        joined_segments(segs.drop_last()) + seq!['/'] + segs.last()
    }
}

/// The storage location of a key under a root directory: the root, the
/// segments as nested components, and a fixed leaf-file suffix.
pub open spec fn storage_path(root: Seq<char>, segs: Seq<Seq<char>>) -> Seq<char> {
    root + joined_segments(segs) + seq!['.', 't', 'x', 't']
}

/// Maps a key to its storage location under `root`. The same key always
/// produces the same path, and because segments cannot hold separators,
/// distinct keys never alias.
pub fn key_to_path(key: &Key, root: &str) -> (r: String)
    ensures
        r@ == storage_path(root@, key@),
{
    let mut path = root.to_owned();
    let n = key.segments.len();
    let mut i: usize = 0;
    proof {
        assert(key@.take(0) =~= Seq::<Seq<char>>::empty());
        assert(path@ =~= root@ + joined_segments(key@.take(0)));
    }
    while i < n
        invariant
            n == key.segments@.len(),
            n == key@.len(),
            i <= n,
            path@ == root@ + joined_segments(key@.take(i as int)),
        decreases n - i,
    {
        path.append("/");
        path.append(key.segments[i].as_str());
        proof {
            reveal_strlit("/");
            assert("/"@ =~= seq!['/']);
            assert(key@.take(i + 1).drop_last() =~= key@.take(i as int));
            assert(key@.take(i + 1).last() == key@[i as int]);
            assert(key@[i as int] == key.segments@[i as int]@);
            assert(path@ =~= root@ + joined_segments(key@.take(i + 1)));
        }
        i = i + 1;
    }
    path.append(".txt");
    proof {
        reveal_strlit(".txt");
        assert(".txt"@ =~= seq!['.', 't', 'x', 't']);
        assert(key@.take(n as int) =~= key@);
        assert(path@ =~= storage_path(root@, key@));
    }
    path
}

/// Joining one more segment appends a separator and the segment.
proof fn lemma_joined_step(s: Seq<Seq<char>>)
    requires
        s.len() > 0,
    ensures
        joined_segments(s).len() == joined_segments(s.drop_last()).len() + 1 + s.last().len(),
        joined_segments(s)[joined_segments(s.drop_last()).len() as int] == '/',
        forall|k: int|
            0 <= k < joined_segments(s.drop_last()).len() ==> joined_segments(s)[k]
                == joined_segments(s.drop_last())[k],
        forall|k: int|
            0 <= k < s.last().len() ==> joined_segments(s)[joined_segments(
                s.drop_last(),
            ).len() + 1 + k] == s.last()[k],
{
    let pre = joined_segments(s.drop_last());
    assert(joined_segments(s) == pre + seq!['/'] + s.last());
}

/// If the separator-joined forms of two segment sequences agree and neither
/// segment list hides a separator, the sequences agree.
proof fn lemma_joined_injective(a: Seq<Seq<char>>, b: Seq<Seq<char>>)
    requires
        forall|i: int| 0 <= i < a.len() ==> valid_segment(#[trigger] a[i]),
        forall|i: int| 0 <= i < b.len() ==> valid_segment(#[trigger] b[i]),
        joined_segments(a) == joined_segments(b),
    ensures
        a == b,
    decreases a.len(),
{
    if a.len() == 0 {
        if b.len() > 0 {
            lemma_joined_step(b);
        }
        assert(a =~= b);
    } else if b.len() == 0 {
        lemma_joined_step(a);
        assert(false);
    } else {
        let ja = joined_segments(a.drop_last());
        let jb = joined_segments(b.drop_last());
        let la = a.last();
        let lb = b.last();
        assert(valid_segment(la));
        assert(valid_segment(lb));
        lemma_joined_step(a);
        lemma_joined_step(b);
        if ja.len() < jb.len() {
            let p = jb.len() as int;
            assert(joined_segments(b)[p] == '/');
            assert(joined_segments(a)[p] == la[p - ja.len() - 1]);
            assert(false);
        } else if jb.len() < ja.len() {
            let p = ja.len() as int;
            assert(joined_segments(a)[p] == '/');
            assert(joined_segments(b)[p] == lb[p - jb.len() - 1]);
            assert(false);
        } else {
            assert(la.len() == lb.len());
            assert forall|k: int| 0 <= k < la.len() implies la[k] == lb[k] by {
                assert(joined_segments(a)[ja.len() + 1 + k] == la[k]);
                assert(joined_segments(b)[jb.len() + 1 + k] == lb[k]);
            }
            assert(la =~= lb);
            assert forall|k: int| 0 <= k < ja.len() implies ja[k] == jb[k] by {
                assert(joined_segments(a)[k] == ja[k]);
                assert(joined_segments(b)[k] == jb[k]);
            }
            assert(ja =~= jb);
            assert(forall|i: int|
                0 <= i < a.drop_last().len() ==> a.drop_last()[i] == #[trigger] a[i]);
            assert(forall|i: int|
                0 <= i < b.drop_last().len() ==> b.drop_last()[i] == #[trigger] b[i]);
            lemma_joined_injective(a.drop_last(), b.drop_last());
            assert(a =~= a.drop_last().push(la));
            assert(b =~= b.drop_last().push(lb));
        }
    }
}

/// The key-to-path mapping never aliases: under one root, two acceptable
/// keys that map to the same storage location are the same key.
pub proof fn lemma_storage_path_injective(root: Seq<char>, a: Seq<Seq<char>>, b: Seq<Seq<char>>)
    requires
        valid_segments(a),
        valid_segments(b),
        storage_path(root, a) == storage_path(root, b),
    ensures
        a == b,
{
    let pa = storage_path(root, a);
    let ja = joined_segments(a);
    let jb = joined_segments(b);
    assert(pa.len() == root.len() + ja.len() + seq!['.', 't', 'x', 't'].len());
    assert(storage_path(root, b).len() == root.len() + jb.len() + seq!['.', 't', 'x', 't'].len());
    assert(ja.len() == jb.len());
    assert forall|k: int| 0 <= k < ja.len() implies ja[k] == jb[k] by {
        assert(pa[root.len() + k] == ja[k]);
        assert(storage_path(root, b)[root.len() + k] == jb[k]);
    }
    assert(ja =~= jb);
    lemma_joined_injective(a, b);
}

} // verus!
