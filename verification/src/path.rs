//! Canonical absolute paths, modelled as sequences of byte-string components.
//!
//! The interposition engine reasons about three path operations: testing
//! whether one path lies under another, rewriting a path from one root to
//! another (how a victim's descriptor paths are re-targeted), and deriving
//! the shadow location at which the interposing filesystem is staged.

use vstd::prelude::*;

verus! {

/// The path separator byte, `/`.
pub const SLASH: u8 = 0x2f;
/// The NUL byte; forbidden inside components so rendered paths can serve as
/// C strings.
pub const NUL: u8 = 0x00;

/// A canonical absolute path: its sequence of components, root being the
/// empty sequence. `/tmp/chaos-a` is `[b"tmp", b"chaos-a"]`.
pub struct AbsPath {
    components: Vec<Vec<u8>>,
}

impl View for AbsPath {
    type V = Seq<Seq<u8>>;

    closed spec fn view(&self) -> Seq<Seq<u8>> {
        self.components@.map_values(|c: Vec<u8>| c@)
    }
}

/// A component is valid when it is nonempty and free of separators and NULs.
pub open spec fn component_wf(c: Seq<u8>) -> bool {
    &&& c.len() > 0
    &&& forall|i: int| 0 <= i < c.len() ==> c[i] != SLASH && c[i] != NUL
}

/// All components of the path are valid.
pub open spec fn path_wf(p: Seq<Seq<u8>>) -> bool {
    forall|i: int| 0 <= i < p.len() ==> component_wf(p[i])
}

/// `pre` is an ancestor of (or equal to) `p`: its components are a prefix of
/// `p`'s components.
pub open spec fn is_path_prefix(pre: Seq<Seq<u8>>, p: Seq<Seq<u8>>) -> bool {
    &&& pre.len() <= p.len()
    &&& p.subrange(0, pre.len() as int) == pre
}

/// Rewrite `p` from root `detect` to root `new_root`: keep the trailing
/// components, replace the leading ones.
pub open spec fn rewrite_spec(
    p: Seq<Seq<u8>>,
    detect: Seq<Seq<u8>>,
    new_root: Seq<Seq<u8>>,
) -> Seq<Seq<u8>> {
    new_root + p.skip(detect.len() as int)
}

/// The marker prepended to the final component of a shadow path:
/// `__chaosfs__`.
pub open spec fn shadow_prefix() -> Seq<u8> {
    seq![0x5f, 0x5f, 0x63, 0x68, 0x61, 0x6f, 0x73, 0x66, 0x73, 0x5f, 0x5f]
}

/// The marker appended to the final component of a shadow path: `__`.
pub open spec fn shadow_suffix() -> Seq<u8> {
    seq![0x5f, 0x5f]
}

/// The shadow of a non-root path: the same path with its final component
/// wrapped in the shadow markers.
pub open spec fn encode_spec(p: Seq<Seq<u8>>) -> Seq<Seq<u8>>
    recommends
        p.len() > 0,
{
    p.update(p.len() - 1, shadow_prefix() + p.last() + shadow_suffix())
}

/// Rendering of a path as bytes, starting at component `i`: each component is
/// preceded by a separator.
pub open spec fn path_bytes_from(p: Seq<Seq<u8>>, i: int) -> Seq<u8>
    recommends
        0 <= i <= p.len(),
    decreases p.len() - i,
{
    if i < 0 || i >= p.len() {
        Seq::empty()
    } else {
        seq![SLASH] + p[i] + path_bytes_from(p, i + 1)
    }
}

/// Rendering of a whole path as bytes; the root renders as `/`.
pub open spec fn path_bytes(p: Seq<Seq<u8>>) -> Seq<u8> {
    if p.len() == 0 {
        seq![SLASH]
    } else {
        path_bytes_from(p, 0)
    }
}

/// The byte strings that parse back into a canonical absolute path: they
/// begin with a separator, and otherwise contain no NUL, no empty component
/// and no trailing separator.
pub open spec fn is_canonical_bytes(b: Seq<u8>) -> bool {
    &&& b.len() >= 1
    &&& b[0] == SLASH
    &&& (b.len() == 1 || {
        &&& b.last() != SLASH
        &&& forall|i: int| 0 <= i < b.len() ==> b[i] != NUL
        &&& forall|i: int| 0 < i < b.len() ==> !(#[trigger] b[i] == SLASH && b[i - 1] == SLASH)
    })
}

/// Byte-for-byte equality of two byte vectors.
pub fn bytes_eq(a: &Vec<u8>, b: &Vec<u8>) -> (r: bool)
    ensures
        r == (a@ == b@),
{
    if a.len() != b.len() {
        proof {
            assert(a@ != b@) by {
                assert(a@.len() != b@.len());
            }
        }
        return false;
    }
    let n = a.len();
    let mut i: usize = 0;
    while i < n
        invariant
            n == a.len() == b.len(),
            0 <= i <= n,
            forall|j: int| 0 <= j < i ==> a@[j] == b@[j],
        decreases n - i,
    {
        if a[i] != b[i] {
            return false;
        }
        i += 1;
    }
    proof {
        assert(a@ =~= b@);
    }
    true
}

impl AbsPath {
    /// The root path.
    pub fn root() -> (r: AbsPath)
        ensures
            r@ =~= Seq::<Seq<u8>>::empty(),
    {
        AbsPath { components: Vec::new() }
    }

    pub open spec fn wf(&self) -> bool {
        path_wf(self@)
    }

    pub fn is_root(&self) -> (r: bool)
        ensures
            r == (self@.len() == 0),
    {
        self.components.len() == 0
    }

    pub fn depth(&self) -> (r: usize)
        ensures
            r == self@.len(),
    {
        self.components.len()
    }

    pub fn component(&self, i: usize) -> (r: &Vec<u8>)
        requires
            i < self@.len(),
        ensures
            r@ == self@[i as int],
    {
        &self.components[i]
    }

    /// An exact copy of the path.
    pub fn clone_path(&self) -> (r: AbsPath)
        ensures
            r@ == self@,
    {
        let mut components: Vec<Vec<u8>> = Vec::new();
        let n = self.components.len();
        let mut i: usize = 0;
        while i < n
            invariant
                n == self.components.len(),
                0 <= i <= n,
                components@.len() == i,
                forall|j: int| 0 <= j < i ==> components@[j]@ == self@[j],
            decreases n - i,
        {
            let mut c: Vec<u8> = Vec::new();
            let comp = &self.components[i];
            let m = comp.len();
            let mut k: usize = 0;
            while k < m
                invariant
                    m == comp.len(),
                    0 <= k <= m,
                    c@ == comp@.subrange(0, k as int),
                decreases m - k,
            {
                c.push(comp[k]);
                proof {
                    assert(c@ =~= comp@.subrange(0, k + 1));
                }
                k += 1;
            }
            proof {
                assert(c@ =~= comp@);
            }
            components.push(c);
            i += 1;
        }
        let r = AbsPath { components };
        proof {
            assert(r@ =~= self@);
        }
        r
    }

    /// Structural equality of two paths.
    pub fn path_eq(&self, other: &AbsPath) -> (r: bool)
        ensures
            r == (self@ == other@),
    {
        if self.components.len() != other.components.len() {
            proof {
                assert(self@.len() != other@.len());
            }
            return false;
        }
        let n = self.components.len();
        let mut i: usize = 0;
        while i < n
            invariant
                n == self.components.len() == other.components.len(),
                self@.len() == other@.len() == n,
                0 <= i <= n,
                forall|j: int| 0 <= j < i ==> self@[j] == other@[j],
        decreases n - i,
        {
            if !bytes_eq(&self.components[i], &other.components[i]) {
                proof {
                    assert(self@[i as int] != other@[i as int]);
                }
                return false;
            }
            i += 1;
        }
        proof {
            assert(self@ =~= other@);
        }
        true
    }

    /// True iff `pre` is an ancestor of (or equal to) `self`.
    pub fn starts_with(&self, pre: &AbsPath) -> (r: bool)
        ensures
            r == is_path_prefix(pre@, self@),
    {
        if pre.components.len() > self.components.len() {
            return false;
        }
        let n = pre.components.len();
        let mut i: usize = 0;
        while i < n
            invariant
                n == pre.components.len() <= self.components.len(),
                pre@.len() == n,
                self@.len() == self.components.len(),
                0 <= i <= n,
                forall|j: int| 0 <= j < i ==> self@[j] == pre@[j],
            decreases n - i,
        {
            if !bytes_eq(&self.components[i], &pre.components[i]) {
                proof {
                    assert(self@[i as int] != pre@[i as int]);
                    assert(self@.subrange(0, n as int)[i as int] == self@[i as int]);
                }
                return false;
            }
            i += 1;
        }
        proof {
            assert(self@.subrange(0, n as int) =~= pre@);
        }
        true
    }

    /// Rewrite `self` from root `detect` to root `new_root`, keeping the
    /// trailing components.
    pub fn rewrite(&self, detect: &AbsPath, new_root: &AbsPath) -> (r: AbsPath)
        requires
            is_path_prefix(detect@, self@),
        ensures
            r@ == rewrite_spec(self@, detect@, new_root@),
    {
        let mut out = new_root.clone_path();
        let n = self.components.len();
        let mut i: usize = detect.components.len();
        while i < n
            invariant
                n == self.components.len(),
                self@.len() == n,
                detect@.len() == detect.components.len() <= n,
                detect.components.len() <= i <= n,
                out@ =~= new_root@ + self@.subrange(detect@.len() as int, i as int),
            decreases n - i,
        {
            let mut c: Vec<u8> = Vec::new();
            let comp = &self.components[i];
            let m = comp.len();
            let mut k: usize = 0;
            while k < m
                invariant
                    m == comp.len(),
                    0 <= k <= m,
                    c@ == comp@.subrange(0, k as int),
                decreases m - k,
            {
                c.push(comp[k]);
                proof {
                    assert(c@ =~= comp@.subrange(0, k + 1));
                }
                k += 1;
            }
            proof {
                assert(c@ =~= comp@);
            }
            let ghost prev = out@;
            out.components.push(c);
            proof {
                assert(out@ =~= prev.push(comp@));
                assert(self@.subrange(detect@.len() as int, i + 1)
                    =~= self@.subrange(detect@.len() as int, i as int).push(self@[i as int]));
                assert(out@ =~= new_root@ + self@.subrange(detect@.len() as int, i + 1));
            }
            i += 1;
        }
        proof {
            assert(self@.subrange(detect@.len() as int, n as int) =~= self@.skip(detect@.len() as int));
        }
        out
    }
}

/// Appending a component to a path appends `/component` to its rendering.
pub proof fn lemma_path_bytes_from_push(p: Seq<Seq<u8>>, c: Seq<u8>, i: int)
    requires
        0 <= i <= p.len(),
    ensures
        path_bytes_from(p.push(c), i) == path_bytes_from(p, i) + seq![SLASH] + c,
    decreases p.len() - i,
{
    if i == p.len() {
        assert(p.push(c)[i] == c);
        assert(path_bytes_from(p.push(c), i + 1) =~= Seq::<u8>::empty());
        assert(path_bytes_from(p.push(c), i) =~= path_bytes_from(p, i) + seq![SLASH] + c);
    } else {
        lemma_path_bytes_from_push(p, c, i + 1);
        assert(p.push(c)[i] == p[i]);
        assert(path_bytes_from(p.push(c), i)
            =~= path_bytes_from(p, i) + seq![SLASH] + c);
    }
}

impl AbsPath {
    /// Render the path as bytes: `/` for the root, otherwise each component
    /// preceded by a separator.
    pub fn to_bytes(&self) -> (r: Vec<u8>)
        ensures
            r@ == path_bytes(self@),
    {
        let mut r: Vec<u8> = Vec::new();
        if self.components.len() == 0 {
            r.push(SLASH);
            proof {
                assert(r@ =~= path_bytes(self@));
            }
            return r;
        }
        let n = self.components.len();
        let mut i: usize = 0;
        while i < n
            invariant
                n == self.components.len(),
                self@.len() == n,
                0 < n,
                0 <= i <= n,
                path_bytes_from(self@, 0) == r@ + path_bytes_from(self@, i as int),
            decreases n - i,
        {
            let ghost before = r@;
            r.push(SLASH);
            let comp = &self.components[i];
            let m = comp.len();
            let mut k: usize = 0;
            while k < m
                invariant
                    m == comp.len(),
                    0 <= k <= m,
                    r@ == before + seq![SLASH] + comp@.subrange(0, k as int),
                decreases m - k,
            {
                r.push(comp[k]);
                proof {
                    assert(r@ =~= before + seq![SLASH] + comp@.subrange(0, k + 1));
                }
                k += 1;
            }
            proof {
                assert(comp@.subrange(0, m as int) =~= comp@);
                assert(comp@ == self@[i as int]);
                assert(path_bytes_from(self@, i as int)
                    == seq![SLASH] + self@[i as int] + path_bytes_from(self@, i + 1));
                assert(before + (seq![SLASH] + self@[i as int] + path_bytes_from(self@, i + 1))
                    =~= (before + seq![SLASH] + comp@) + path_bytes_from(self@, i + 1));
            }
            i += 1;
        }
        proof {
            assert(path_bytes_from(self@, n as int) =~= Seq::<u8>::empty());
            assert(r@ =~= r@ + path_bytes_from(self@, n as int));
        }
        r
    }
}

impl AbsPath {
    /// Parse a rendered path back into its components. Succeeds exactly on
    /// canonical byte strings, and the result renders back to the input.
    pub fn from_bytes(b: &Vec<u8>) -> (r: Option<AbsPath>)
        ensures
            r is Some <==> is_canonical_bytes(b@),
            r matches Some(p) ==> p.wf() && path_bytes(p@) == b@,
    {
        let len = b.len();
        if len == 0 {
            return None;
        }
        if b[0] != SLASH {
            return None;
        }
        if len == 1 {
            let p = AbsPath::root();
            proof {
                assert(path_bytes(p@) =~= b@);
            }
            return Some(p);
        }
        let mut components: Vec<Vec<u8>> = Vec::new();
        let mut cur: Vec<u8> = Vec::new();
        let mut i: usize = 1;
        while i < len
            invariant
                len == b.len(),
                2 <= len,
                b@[0] == SLASH,
                1 <= i <= len,
                cur@.len() < i,
                b@.subrange(0, i as int)
                    == path_bytes_from(components@.map_values(|c: Vec<u8>| c@), 0)
                        + seq![SLASH] + cur@,
                forall|k: int| 0 <= k < cur@.len() ==> cur@[k] != SLASH && cur@[k] != NUL,
                path_wf(components@.map_values(|c: Vec<u8>| c@)),
                forall|j: int| 0 <= j < i ==> b@[j] != NUL,
                forall|j: int| 0 < j < i ==> !(#[trigger] b@[j] == SLASH && b@[j - 1] == SLASH),
            decreases len - i,
        {
            let ghost cv = components@.map_values(|c: Vec<u8>| c@);
            proof {
                // The byte just before position `i` is the tail of the parsed
                // prefix: the last byte of `cur`, or the separator before it.
                assert(b@.subrange(0, i as int)[i - 1] == b@[i - 1]);
                let pref = path_bytes_from(cv, 0);
                assert(b@.subrange(0, i as int).len() == i as int);
                assert(pref.len() + 1 + cur@.len() == i as int);
                if cur@.len() == 0 {
                    assert((pref + seq![SLASH] + cur@)[i - 1] == SLASH);
                    assert(b@[i - 1] == SLASH);
                } else {
                    assert((pref + seq![SLASH] + cur@)[i - 1] == cur@[cur@.len() - 1]);
                    assert(b@[i - 1] == cur@.last());
                }
            }
            let c = b[i];
            if c == NUL {
                return None;
            }
            if c == SLASH {
                if cur.len() == 0 {
                    // An empty component: two adjacent separators.
                    return None;
                }
                let ghost curv = cur@;
                components.push(cur);
                cur = Vec::new();
                proof {
                    lemma_path_bytes_from_push(cv, curv, 0);
                    assert(components@.map_values(|c: Vec<u8>| c@) =~= cv.push(curv));
                    assert(b@.subrange(0, i + 1)
                        =~= path_bytes_from(cv.push(curv), 0) + seq![SLASH] + cur@);
                    assert(path_wf(cv.push(curv))) by {
                        assert(forall|k: int| 0 <= k < cv.len() ==> cv.push(curv)[k] == cv[k]);
                        assert(component_wf(curv));
                    }
                }
            } else {
                cur.push(c);
                proof {
                    assert(b@.subrange(0, i + 1)
                        =~= path_bytes_from(cv, 0) + seq![SLASH] + cur@);
                }
            }
            i += 1;
        }
        if cur.len() == 0 {
            // A trailing separator.
            proof {
                assert(b@.subrange(0, len as int)[len - 1] == b@[len - 1]);
                assert(b@[len - 1] == SLASH);
                assert(b@.last() == SLASH);
            }
            return None;
        }
        let ghost cv = components@.map_values(|c: Vec<u8>| c@);
        let ghost curv = cur@;
        components.push(cur);
        let p = AbsPath { components };
        proof {
            lemma_path_bytes_from_push(cv, curv, 0);
            assert(p@ =~= cv.push(curv));
            assert(b@.subrange(0, len as int) =~= b@);
            assert(path_bytes(p@) == b@) by {
                assert(p@.len() > 0);
                assert(path_bytes_from(p@, 0) =~= b@);
            }
            assert(p.wf()) by {
                assert(forall|k: int| 0 <= k < cv.len() ==> p@[k] == cv[k]);
                assert(component_wf(curv));
            }
            assert(is_canonical_bytes(b@)) by {
                assert(b@.subrange(0, len as int)[len - 1] == b@[len - 1]);
                assert(b@.last() == curv.last());
            }
        }
        Some(p)
    }
}

/// The rendering of a well-formed path contains no NUL byte, so it can serve
/// as a C string in a victim's string table.
pub proof fn lemma_path_bytes_from_no_nul(p: Seq<Seq<u8>>, i: int)
    requires
        path_wf(p),
        0 <= i,
    ensures
        forall|j: int| 0 <= j < path_bytes_from(p, i).len() ==> path_bytes_from(p, i)[j] != NUL,
    decreases p.len() - i,
{
    if i < p.len() {
        lemma_path_bytes_from_no_nul(p, i + 1);
        assert(component_wf(p[i]));
        assert forall|j: int| 0 <= j < path_bytes_from(p, i).len()
            implies path_bytes_from(p, i)[j] != NUL by {
            let s = seq![SLASH] + p[i] + path_bytes_from(p, i + 1);
            assert(path_bytes_from(p, i) == s);
            if j == 0 {
                assert(s[j] == SLASH);
            } else if j < 1 + p[i].len() {
                assert(s[j] == p[i][j - 1]);
            } else {
                assert(s[j] == path_bytes_from(p, i + 1)[j - 1 - p[i].len()]);
            }
        }
    }
}

/// As above, for the whole rendering.
pub proof fn lemma_path_bytes_no_nul(p: Seq<Seq<u8>>)
    requires
        path_wf(p),
    ensures
        forall|j: int| 0 <= j < path_bytes(p).len() ==> path_bytes(p)[j] != NUL,
{
    if p.len() == 0 {
        assert(path_bytes(p) == seq![SLASH]);
    } else {
        lemma_path_bytes_from_no_nul(p, 0);
    }
}

/// A rewrite of a well-formed path to a well-formed root is well formed.
pub proof fn lemma_rewrite_wf(p: Seq<Seq<u8>>, detect: Seq<Seq<u8>>, new_root: Seq<Seq<u8>>)
    requires
        path_wf(p),
        path_wf(new_root),
        detect.len() <= p.len(),
    ensures
        path_wf(rewrite_spec(p, detect, new_root)),
{
    let q = rewrite_spec(p, detect, new_root);
    assert forall|i: int| 0 <= i < q.len() implies component_wf(#[trigger] q[i]) by {
        if i < new_root.len() {
            assert(q[i] == new_root[i]);
        } else {
            assert(q[i] == p[detect.len() + (i - new_root.len())]);
        }
    }
}

/// The error returned when a path has no shadow: only the root lacks one.
#[derive(Clone, Copy, PartialEq, Eq, Structural, Debug)]
pub enum PathError {
    RootHasNoShadow,
}

impl AbsPath {
    /// Derive the shadow location for this path: the final component is
    /// wrapped in the shadow markers, the rest of the path is unchanged.
    /// Fails exactly on the root.
    pub fn encode_path(&self) -> (r: Result<AbsPath, PathError>)
        ensures
            r is Err <==> self@.len() == 0,
            r is Err ==> r == Result::<AbsPath, PathError>::Err(PathError::RootHasNoShadow),
            r matches Ok(q) ==> q@ == encode_spec(self@),
            r matches Ok(q) ==> self.wf() ==> q.wf(),
    {
        if self.components.len() == 0 {
            return Err(PathError::RootHasNoShadow);
        }
        let mut out = self.clone_path();
        proof {
            assert(out@.len() == out.components@.len());
            assert(self@.len() == self.components@.len());
        }
        let n = out.components.len();
        let last = &self.components[n - 1];
        let mut wrapped: Vec<u8> = Vec::new();
        wrapped.push(0x5f);
        wrapped.push(0x5f);
        wrapped.push(0x63);
        wrapped.push(0x68);
        wrapped.push(0x61);
        wrapped.push(0x6f);
        wrapped.push(0x73);
        wrapped.push(0x66);
        wrapped.push(0x73);
        wrapped.push(0x5f);
        wrapped.push(0x5f);
        proof {
            assert(wrapped@ =~= shadow_prefix());
        }
        let m = last.len();
        let mut k: usize = 0;
        while k < m
            invariant
                m == last.len(),
                0 <= k <= m,
                wrapped@ == shadow_prefix() + last@.subrange(0, k as int),
            decreases m - k,
        {
            wrapped.push(last[k]);
            proof {
                assert(wrapped@ =~= shadow_prefix() + last@.subrange(0, k + 1));
            }
            k += 1;
        }
        proof {
            assert(last@.subrange(0, m as int) =~= last@);
        }
        wrapped.push(0x5f);
        wrapped.push(0x5f);
        proof {
            assert(wrapped@ =~= shadow_prefix() + last@ + shadow_suffix());
        }
        let ghost prev = out@;
        out.components.set(n - 1, wrapped);
        proof {
            assert(last@ == self@.last());
            assert(out@ =~= prev.update(n - 1, shadow_prefix() + self@.last() + shadow_suffix()));
            assert(out@ =~= encode_spec(self@));
            if self.wf() {
                assert forall|i: int| 0 <= i < out@.len() implies component_wf(out@[i]) by {
                    if i < n - 1 {
                        assert(out@[i] == self@[i]);
                    } else {
                        assert(component_wf(self@.last()));
                        assert(forall|j: int| 0 <= j < out@[i].len()
                            ==> out@[i][j] != SLASH && out@[i][j] != NUL);
                    }
                }
            }
        }
        Ok(out)
    }
}

/// Shadow uniqueness: two paths have the same shadow exactly when they are
/// the same path.
pub proof fn lemma_encode_path_injective(a: Seq<Seq<u8>>, b: Seq<Seq<u8>>)
    requires
        a.len() > 0,
        b.len() > 0,
    ensures
        encode_spec(a) == encode_spec(b) <==> a == b,
{
    if encode_spec(a) == encode_spec(b) {
        assert(encode_spec(a).len() == a.len());
        assert(encode_spec(b).len() == b.len());
        assert(a.len() == b.len());
        let n = a.len() as int;
        assert forall|i: int| 0 <= i < n - 1 implies a[i] == b[i] by {
            assert(encode_spec(a)[i] == a[i]);
            assert(encode_spec(b)[i] == b[i]);
        }
        let wa = shadow_prefix() + a.last() + shadow_suffix();
        let wb = shadow_prefix() + b.last() + shadow_suffix();
        assert(encode_spec(a)[n - 1] == wa);
        assert(encode_spec(b)[n - 1] == wb);
        assert(wa.len() == wb.len());
        assert(a.last().len() == b.last().len());
        let p = shadow_prefix().len() as int;
        assert forall|j: int| 0 <= j < a.last().len() implies a.last()[j] == b.last()[j] by {
            assert(wa[p + j] == a.last()[j]);
            assert(wb[p + j] == b.last()[j]);
        }
        assert(a.last() =~= b.last());
        assert(a =~= b);
    }
}

/// The rewrite of a path under `detect` begins with `new_root` and is undone
/// by rewriting back: the trailing components survive both directions intact.
pub proof fn lemma_rewrite_round_trip(p: Seq<Seq<u8>>, detect: Seq<Seq<u8>>, new_root: Seq<Seq<u8>>)
    requires
        is_path_prefix(detect, p),
    ensures
        is_path_prefix(new_root, rewrite_spec(p, detect, new_root)),
        rewrite_spec(rewrite_spec(p, detect, new_root), new_root, detect) == p,
{
    let q = rewrite_spec(p, detect, new_root);
    assert(q.subrange(0, new_root.len() as int) =~= new_root);
    assert(q.skip(new_root.len() as int) =~= p.skip(detect.len() as int));
    assert(rewrite_spec(q, new_root, detect) =~= detect + p.skip(detect.len() as int));
    assert(detect + p.skip(detect.len() as int) =~= p);
}

} // verus!
