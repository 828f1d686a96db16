use crate::addon::{Addon, AddonView};
use vstd::prelude::*;

verus! {

/// Closes the segment being read: empty segments and `.` add nothing.
pub open spec fn flush(done: Seq<Seq<char>>, cur: Seq<char>) -> Seq<Seq<char>> {
    if cur.len() == 0 || cur == seq!['.'] {
        done
    } else {
        done.push(cur)
    }
}

/// Reads `s` one character at a time from the state `st`: the segments
/// closed so far, and the segment being read.
pub open spec fn scan_from(st: (Seq<Seq<char>>, Seq<char>), s: Seq<char>) -> (
    Seq<Seq<char>>,
    Seq<char>,
)
    decreases s.len(),
{
    if s.len() == 0 {
        st
    } else {
        let prev = scan_from(st, s.drop_last());
        if s.last() == '/' {
            (flush(prev.0, prev.1), Seq::empty())
        } else {
            (prev.0, prev.1.push(s.last()))
        }
    }
}

pub open spec fn scan(s: Seq<char>) -> (Seq<Seq<char>>, Seq<char>) {
    scan_from((Seq::empty(), Seq::empty()), s)
}

/// The segments of a path: its `/`-separated parts, without the empty ones
/// and without `.`.
pub open spec fn segments(s: Seq<char>) -> Seq<Seq<char>> {
    flush(scan(s).0, scan(s).1)
}

/// Splits a path into its segments.
pub fn segments_of(s: &str) -> (r: Vec<String>)
    ensures
        r@.map_values(|x: String| x@) == segments(s@),
{
    let n = s.unicode_len();
    let mut done: Vec<String> = Vec::new();
    let mut start: usize = 0;
    let mut i: usize = 0;
    while i < n
        invariant
            n == s@.len(),
            start <= i <= n,
            scan(s@.take(i as int)) == (done@.map_values(|x: String| x@), s@.subrange(
                start as int,
                i as int,
            )),
        decreases n - i,
    {
        let c = s.get_char(i);
        proof {
            assert(s@.take(i + 1).drop_last() =~= s@.take(i as int));
            assert(s@.take(i + 1).last() == c);
        }
        if c == '/' {
            let seg = s.substring_char(start, i);
            if !is_blank_segment(seg) {
                let ghost before = done@;
                done.push(seg.to_owned());
                proof {
                    assert(done@.map_values(|x: String| x@) =~= before.map_values(
                        |x: String| x@,
                    ).push(seg@));
                }
            }
            start = i + 1;
            assert(s@.subrange(start as int, (i + 1) as int) =~= Seq::<char>::empty());
        } else {
            assert(s@.subrange(start as int, (i + 1) as int) =~= s@.subrange(
                start as int,
                i as int,
            ).push(c));
        }
        i = i + 1;
    }
    assert(s@.take(n as int) =~= s@);
    let seg = s.substring_char(start, n);
    if !is_blank_segment(seg) {
        let ghost before = done@;
        done.push(seg.to_owned());
        proof {
            assert(done@.map_values(|x: String| x@) =~= before.map_values(|x: String| x@).push(
                seg@,
            ));
        }
    }
    done
}

/// Whether a part of a path adds no segment: it is empty or `.`.
fn is_blank_segment(seg: &str) -> (r: bool)
    ensures
        r == (seg@.len() == 0 || seg@ == seq!['.']),
{
    let n = seg.unicode_len();
    if n == 0 {
        true
    } else if n == 1 {
        let c = seg.get_char(0);
        proof {
            if c == '.' {
                assert(seg@ =~= seq!['.']);
            }
        }
        c == '.'
    } else {
        false
    }
}


/// A segment as `segments` yields it: not empty, not `.`, without `/`.
pub open spec fn proper_segment(seg: Seq<char>) -> bool {
    seg.len() > 0 && seg != seq!['.'] && !seg.contains('/')
}

pub open spec fn types_segment() -> Seq<char> {
    seq!['t', 'y', 'p', 'e', 's']
}

pub open spec fn parent_segment() -> Seq<char> {
    seq!['.', '.']
}

/// `a/b`: the path `b` below the path `a`.
pub open spec fn join(a: Seq<char>, b: Seq<char>) -> Seq<char> {
    a + seq!['/'] + b
}

/// The directory under which a tree holds its addons: `{tree}/lib/luarocks`.
pub open spec fn tree_lib_prefix(tree: Seq<char>) -> Seq<char> {
    join(join(tree, seq!['l', 'i', 'b']), seq!['l', 'u', 'a', 'r', 'o', 'c', 'k', 's'])
}

/// A path is absolute when it starts at the root.
pub open spec fn is_absolute(p: Seq<char>) -> bool {
    p.len() > 0 && p[0] == '/'
}

pub open spec fn starts_with_segments(s: Seq<Seq<char>>, prefix: Seq<Seq<char>>) -> bool {
    prefix.len() <= s.len() && s.take(prefix.len() as int) == prefix
}

/// Whether a library entry names an addon of the tree: a relative path below
/// `{tree}/lib/luarocks` whose last segment is `types`.
pub open spec fn accepts_spec(p: Seq<char>, tree: Seq<char>) -> bool {
    &&& !is_absolute(p)
    &&& !is_absolute(tree_lib_prefix(tree))
    &&& starts_with_segments(segments(p), segments(tree_lib_prefix(tree)))
    &&& segments(p).len() > 0
    &&& segments(p).last() == types_segment()
}

/// The addon that an accepted entry names: the version is the directory that
/// holds `types`, the name the directory above it. Either being `..` names no
/// directory, and the entry itself is the error.
pub open spec fn decode_spec(p: Seq<char>) -> Result<AddonView, Seq<char>> {
    let segs = segments(p);
    let name = segs[segs.len() - 3];
    let version = segs[segs.len() - 2];
    if name == parent_segment() || version == parent_segment() {
        Err(p)
    } else {
        Ok(AddonView { name, version, location: Some(p) })
    }
}

/// The canonical entry of an addon in a tree: `{tree}/lib/luarocks/{name}/{version}/types`.
pub open spec fn encode_spec(tree: Seq<char>, name: Seq<char>, version: Seq<char>) -> Seq<char> {
    join(join(join(tree_lib_prefix(tree), name), version), types_segment())
}

/// The `types` directory inside `location`, joined as a path.
pub open spec fn types_path_spec(location: Seq<char>) -> Seq<char> {
    if location.len() == 0 {
        types_segment()
    } else if location.last() == '/' {
        location + types_segment()
    } else {
        join(location, types_segment())
    }
}

/// A library entry that matches the tree but names no addon directory.
#[derive(Debug, Clone, PartialEq, Eq)]
pub enum DecodeError {
    NotADirectoryName(String),
}

impl DecodeError {
    /// The entry that could not be decoded.
    pub open spec fn entry(&self) -> Seq<char> {
        match self {
            DecodeError::NotADirectoryName(e) => e@,
        }
    }

    pub open spec fn message_spec(&self) -> Seq<char> {
        "library entry '"@ + self.entry() + "' does not name an addon directory"@
    }

    /// A one-line description of the error.
    pub fn message(&self) -> (r: String)
        ensures
            r@ == self.message_spec(),
    {
        match self {
            DecodeError::NotADirectoryName(e) => {
                let r = "library entry '".to_owned();
                let r = r.concat(e.as_str());
                r.concat("' does not name an addon directory")
            },
        }
    }
}

/// The path `b` below `a`.
fn join_exec(a: &str, b: &str) -> (r: String)
    ensures
        r@ == join(a@, b@),
{
    let r = a.to_owned();
    proof {
        reveal_strlit("/");
    }
    let r = r.concat("/");
    let r = r.concat(b);
    assert(r@ =~= join(a@, b@));
    r
}

/// `{tree}/lib/luarocks`.
pub fn lib_prefix(tree: &str) -> (r: String)
    ensures
        r@ == tree_lib_prefix(tree@),
{
    proof {
        reveal_strlit("lib");
        reveal_strlit("luarocks");
    }
    let r = join_exec(tree, "lib");
    let r = join_exec(r.as_str(), "luarocks");
    assert(r@ =~= tree_lib_prefix(tree@));
    r
}

fn is_absolute_exec(p: &str) -> (r: bool)
    ensures
        r == is_absolute(p@),
{
    p.unicode_len() > 0 && p.get_char(0) == '/'
}

fn segment_is(seg: &String, lit: &str) -> (r: bool)
    ensures
        r == (seg@ == lit@),
{
    *seg == lit.to_owned()
}

/// Whether the library entry `path` names an addon of `tree`.
pub fn accepts(path: &str, tree: &str) -> (r: bool)
    ensures
        r == accepts_spec(path@, tree@),
{
    let prefix = lib_prefix(tree);
    if is_absolute_exec(path) || is_absolute_exec(prefix.as_str()) {
        return false;
    }
    let segs = segments_of(path);
    let pre = segments_of(prefix.as_str());
    let ghost sv = segs@.map_values(|x: String| x@);
    let ghost pv = pre@.map_values(|x: String| x@);
    if pre.len() > segs.len() || segs.len() == 0 {
        return false;
    }
    let mut i: usize = 0;
    while i < pre.len()
        invariant
            pre.len() <= segs.len(),
            sv == segs@.map_values(|x: String| x@),
            pv == pre@.map_values(|x: String| x@),
            sv == segments(path@),
            pv == segments(tree_lib_prefix(tree@)),
            i <= pre.len(),
            forall|j: int| 0 <= j < i ==> sv[j] == pv[j],
        decreases pre.len() - i,
    {
        if !(segs[i] == pre[i]) {
            assert(sv[i as int] == segs@[i as int]@ && pv[i as int] == pre@[i as int]@);
            assert(sv.take(pv.len() as int)[i as int] != pv[i as int]);
            return false;
        }
        assert(sv[i as int] == segs@[i as int]@ && pv[i as int] == pre@[i as int]@);
        i = i + 1;
    }
    assert(sv.take(pv.len() as int) =~= pv);
    proof {
        reveal_strlit("types");
    }
    let last = segs.len() - 1;
    let r = segment_is(&segs[last], "types");
    assert("types"@ =~= types_segment());
    r
}

/// An absolute path, a path outside `{tree}/lib/luarocks`, and a path whose
/// last segment is not `types` are never entries of the tree.
pub proof fn lemma_accepts_rejects(p: Seq<char>, tree: Seq<char>)
    ensures
        is_absolute(p) ==> !accepts_spec(p, tree),
        !starts_with_segments(segments(p), segments(tree_lib_prefix(tree))) ==> !accepts_spec(
            p,
            tree,
        ),
        (segments(p).len() == 0 || segments(p).last() != types_segment()) ==> !accepts_spec(
            p,
            tree,
        ),
{
}

pub proof fn lemma_scan_concat(st: (Seq<Seq<char>>, Seq<char>), a: Seq<char>, b: Seq<char>)
    ensures
        scan_from(st, a + b) == scan_from(scan_from(st, a), b),
    decreases b.len(),
{
    if b.len() == 0 {
        assert(a + b =~= a);
    } else {
        lemma_scan_concat(st, a, b.drop_last());
        assert((a + b).drop_last() =~= a + b.drop_last());
    }
}

/// Segments closed before a stretch of text stay in front of those it closes.
pub proof fn lemma_scan_shift(done: Seq<Seq<char>>, cur: Seq<char>, b: Seq<char>)
    ensures
        scan_from((done, cur), b).0 == done + scan_from((Seq::empty(), cur), b).0,
        scan_from((done, cur), b).1 == scan_from((Seq::empty(), cur), b).1,
    decreases b.len(),
{
    if b.len() == 0 {
        assert(done + Seq::<Seq<char>>::empty() =~= done);
    } else {
        lemma_scan_shift(done, cur, b.drop_last());
        let x = scan_from((Seq::empty(), cur), b.drop_last());
        assert((done + x.0).push(x.1) =~= done + x.0.push(x.1));
    }
}

/// The segments of `a/b` are those of `a` followed by those of `b`.
pub proof fn lemma_segments_join(a: Seq<char>, b: Seq<char>)
    ensures
        segments(join(a, b)) == segments(a) + segments(b),
{
    let init = (Seq::<Seq<char>>::empty(), Seq::<char>::empty());
    lemma_scan_concat(init, a + seq!['/'], b);
    lemma_scan_concat(init, a, seq!['/']);
    assert(seq!['/'].drop_last() =~= Seq::<char>::empty());
    assert(seq!['/'].last() == '/');
    assert(scan_from(scan(a), Seq::<char>::empty()) == scan(a));
    assert(scan_from(scan(a), seq!['/']) == (segments(a), Seq::<char>::empty()));
    lemma_scan_shift(segments(a), Seq::empty(), b);
    let x = scan(b);
    assert((segments(a) + x.0).push(x.1) =~= segments(a) + x.0.push(x.1));
}

proof fn lemma_scan_no_slash(st: (Seq<Seq<char>>, Seq<char>), s: Seq<char>)
    requires
        !s.contains('/'),
    ensures
        scan_from(st, s) == (st.0, st.1 + s),
    decreases s.len(),
{
    if s.len() == 0 {
        assert(st.1 + s =~= st.1);
    } else {
        assert(s.drop_last().contains('/') ==> s.contains('/')) by {
            if s.drop_last().contains('/') {
                let k = choose|k: int| 0 <= k < s.drop_last().len() && s.drop_last()[k] == '/';
                assert(s[k] == '/');
            }
        }
        lemma_scan_no_slash(st, s.drop_last());
        assert(s[s.len() - 1] == s.last());
        assert((st.1 + s.drop_last()).push(s.last()) =~= st.1 + s);
    }
}

/// A proper segment is a path of that one segment.
pub proof fn lemma_segments_single(seg: Seq<char>)
    requires
        proper_segment(seg),
    ensures
        segments(seg) == seq![seg],
{
    lemma_scan_no_slash((Seq::empty(), Seq::empty()), seg);
    assert(Seq::<char>::empty() + seg =~= seg);
    assert(Seq::<Seq<char>>::empty().push(seg) =~= seq![seg]);
}

proof fn lemma_scan_proper(s: Seq<char>)
    ensures
        forall|i: int| 0 <= i < scan(s).0.len() ==> proper_segment(#[trigger] scan(s).0[i]),
        !scan(s).1.contains('/'),
    decreases s.len(),
{
    if s.len() > 0 {
        lemma_scan_proper(s.drop_last());
        let prev = scan(s.drop_last());
        if s.last() != '/' {
            assert forall|k: int| 0 <= k < prev.1.push(s.last()).len() implies prev.1.push(
                s.last(),
            )[k] != '/' by {
                if k < prev.1.len() {
                    assert(prev.1.push(s.last())[k] == prev.1[k]);
                }
            }
        }
    }
}

/// Every segment of a path is proper.
pub proof fn lemma_segments_proper(s: Seq<char>)
    ensures
        forall|i: int| 0 <= i < segments(s).len() ==> proper_segment(#[trigger] segments(s)[i]),
{
    lemma_scan_proper(s);
}


proof fn lemma_literal_segments()
    ensures
        proper_segment(seq!['l', 'i', 'b']),
        proper_segment(seq!['l', 'u', 'a', 'r', 'o', 'c', 'k', 's']),
        proper_segment(types_segment()),
{
    let lib = seq!['l', 'i', 'b'];
    let luarocks = seq!['l', 'u', 'a', 'r', 'o', 'c', 'k', 's'];
    let types = types_segment();
    assert(lib != seq!['.'] && luarocks != seq!['.'] && types != seq!['.']) by {
        assert(seq!['.'].len() == 1);
    }
    assert(!lib.contains('/'));
    assert(!luarocks.contains('/'));
    assert(!types.contains('/'));
}

/// The segments of `{tree}/lib/luarocks`: those of the tree, then `lib` and `luarocks`.
proof fn lemma_prefix_segments(tree: Seq<char>)
    ensures
        segments(tree_lib_prefix(tree)) == segments(tree) + seq![seq!['l', 'i', 'b']] + seq![
            seq!['l', 'u', 'a', 'r', 'o', 'c', 'k', 's'],
        ],
{
    let lib = seq!['l', 'i', 'b'];
    let luarocks = seq!['l', 'u', 'a', 'r', 'o', 'c', 'k', 's'];
    lemma_literal_segments();
    lemma_segments_join(tree, lib);
    lemma_segments_join(join(tree, lib), luarocks);
    lemma_segments_single(lib);
    lemma_segments_single(luarocks);
}

/// An accepted entry has a version directory and a name directory above `types`.
pub proof fn lemma_accepted_depth(p: Seq<char>, tree: Seq<char>)
    requires
        accepts_spec(p, tree),
    ensures
        segments(p).len() >= 3,
        segments(p).len() > segments(tree_lib_prefix(tree)).len(),
{
    lemma_prefix_segments(tree);
    let sp = segments(tree_lib_prefix(tree));
    let segs = segments(p);
    assert(sp.last() == seq!['l', 'u', 'a', 'r', 'o', 'c', 'k', 's']);
    if segs.len() == sp.len() {
        assert(segs.take(sp.len() as int) =~= segs);
        assert(types_segment() != seq!['l', 'u', 'a', 'r', 'o', 'c', 'k', 's']) by {
            assert(types_segment().len() != 8);
        }
    }
}

/// The addon that the accepted entry `path` names.
pub fn decode(path: &str, tree: &str) -> (r: Result<Addon, DecodeError>)
    requires
        accepts_spec(path@, tree@),
    ensures
        match r {
            Ok(a) => decode_spec(path@) == Ok::<AddonView, Seq<char>>(a@),
            Err(e) => decode_spec(path@) == Err::<AddonView, Seq<char>>(e.entry()),
        },
{
    proof {
        lemma_accepted_depth(path@, tree@);
        reveal_strlit("..");
    }
    let segs = segments_of(path);
    let n = segs.len();
    let name = &segs[n - 3];
    let version = &segs[n - 2];
    assert(name@ == segments(path@)[n - 3] && version@ == segments(path@)[n - 2]);
    assert(".."@ =~= parent_segment());
    if segment_is(name, "..") || segment_is(version, "..") {
        Err(DecodeError::NotADirectoryName(path.to_owned()))
    } else {
        Ok(Addon { name: name.clone(), version: version.clone(), location: Some(path.to_owned()) })
    }
}

/// The canonical entry of `addon` in `tree`: `{tree}/lib/luarocks/{name}/{version}/types`.
/// It names the addon by its identity alone; the entry for an addon
/// installed at a known directory is `types_path` of that directory, which
/// enabling and disabling use.
pub fn encode(tree: &str, addon: &Addon) -> (r: String)
    ensures
        r@ == encode_spec(tree@, addon.name@, addon.version@),
{
    proof {
        reveal_strlit("types");
    }
    let r = lib_prefix(tree);
    let r = join_exec(r.as_str(), addon.name.as_str());
    let r = join_exec(r.as_str(), addon.version.as_str());
    let r = join_exec(r.as_str(), "types");
    assert("types"@ =~= types_segment());
    r
}

/// The `types` directory inside the directory `location`, joined as
/// `Path::join` does: no separator is added after an empty path or one that
/// already ends in `/`.
pub fn types_path(location: &str) -> (r: String)
    ensures
        r@ == types_path_spec(location@),
{
    proof {
        reveal_strlit("types");
    }
    assert("types"@ =~= types_segment());
    let n = location.unicode_len();
    if n == 0 {
        "types".to_owned()
    } else if location.get_char(n - 1) == '/' {
        location.to_owned().concat("types")
    } else {
        join_exec(location, "types")
    }
}

/// Decoding the canonical entry of an addon decoded from an entry gives the
/// same addon again: the canonical entry is accepted, and it names the same
/// name and version.
pub proof fn lemma_decode_encode_round_trip(p: Seq<char>, tree: Seq<char>)
    requires
        accepts_spec(p, tree),
        decode_spec(p) is Ok,
    ensures
        ({
            let a = decode_spec(p)->Ok_0;
            let q = encode_spec(tree, a.name, a.version);
            &&& accepts_spec(q, tree)
            &&& decode_spec(q) is Ok
            &&& decode_spec(q)->Ok_0.name == a.name
            &&& decode_spec(q)->Ok_0.version == a.version
        }),
{
    lemma_accepted_depth(p, tree);
    lemma_segments_proper(p);
    lemma_literal_segments();
    let segs = segments(p);
    let n = segs.len();
    let name = segs[n - 3];
    let version = segs[n - 2];
    let pre = tree_lib_prefix(tree);
    let a = join(pre, name);
    let b = join(a, version);
    let q = join(b, types_segment());
    lemma_segments_join(pre, name);
    lemma_segments_join(a, version);
    lemma_segments_join(b, types_segment());
    lemma_segments_single(name);
    lemma_segments_single(version);
    lemma_segments_single(types_segment());
    let sp = segments(pre);
    let sq = segments(q);
    assert(sq =~= sp + seq![name] + seq![version] + seq![types_segment()]);
    assert(sq.take(sp.len() as int) =~= sp);
    assert(pre.len() > 0);
    assert(q[0] == pre[0]);
    assert(sq[sq.len() - 3] == name);
    assert(sq[sq.len() - 2] == version);
}


/// `dir` with `seg` pushed onto it, as `PathBuf::push` does: an absolute
/// `seg` takes the place of `dir`, and no separator is added after an empty
/// path or one that already ends in `/`.
pub open spec fn push_spec(dir: Seq<char>, seg: Seq<char>) -> Seq<char> {
    if is_absolute(seg) || dir.len() == 0 {
        seg
    } else if dir.last() == '/' {
        dir + seg
    } else {
        join(dir, seg)
    }
}

/// The segments joined by `/`.
pub open spec fn join_segments(segs: Seq<Seq<char>>) -> Seq<char>
    decreases segs.len(),
{
    if segs.len() == 0 {
        Seq::empty()
    } else if segs.len() == 1 {
        segs[0]
    } else {
        join(join_segments(segs.drop_last()), segs.last())
    }
}

/// `path` made relative to `base` where it lies below it: the segments that
/// follow those of `base`, joined by `/`. Otherwise `path` as it is.
pub open spec fn strip_base_spec(path: Seq<char>, base: Seq<char>) -> Seq<char> {
    if is_absolute(path) == is_absolute(base) && starts_with_segments(segments(path), segments(base)) {
        join_segments(segments(path).skip(segments(base).len() as int))
    } else {
        path
    }
}

/// Pushes `seg` onto the path `dir`.
pub fn push_path(dir: &str, seg: &str) -> (r: String)
    ensures
        r@ == push_spec(dir@, seg@),
{
    let n = dir.unicode_len();
    if is_absolute_exec(seg) || n == 0 {
        seg.to_owned()
    } else if dir.get_char(n - 1) == '/' {
        dir.to_owned().concat(seg)
    } else {
        join_exec(dir, seg)
    }
}

/// `path` made relative to `base` where it lies below it.
pub fn strip_base(path: &str, base: &str) -> (r: String)
    ensures
        r@ == strip_base_spec(path@, base@),
{
    if is_absolute_exec(path) != is_absolute_exec(base) {
        return path.to_owned();
    }
    let segs = segments_of(path);
    let pre = segments_of(base);
    let ghost sv = segs@.map_values(|x: String| x@);
    let ghost pv = pre@.map_values(|x: String| x@);
    if pre.len() > segs.len() {
        return path.to_owned();
    }
    let mut i: usize = 0;
    while i < pre.len()
        invariant
            pre.len() <= segs.len(),
            sv == segs@.map_values(|x: String| x@),
            pv == pre@.map_values(|x: String| x@),
            sv == segments(path@),
            pv == segments(base@),
            i <= pre.len(),
            forall|j: int| 0 <= j < i ==> sv[j] == pv[j],
        decreases pre.len() - i,
    {
        if !(segs[i] == pre[i]) {
            assert(sv[i as int] == segs@[i as int]@ && pv[i as int] == pre@[i as int]@);
            assert(sv.take(pv.len() as int)[i as int] != pv[i as int]);
            return path.to_owned();
        }
        assert(sv[i as int] == segs@[i as int]@ && pv[i as int] == pre@[i as int]@);
        i = i + 1;
    }
    assert(sv.take(pv.len() as int) =~= pv);
    let ghost rest = sv.skip(pv.len() as int);
    let mut r = String::new();
    let mut k: usize = pre.len();
    while k < segs.len()
        invariant
            pre.len() <= k <= segs.len(),
            sv == segs@.map_values(|x: String| x@),
            pv == pre@.map_values(|x: String| x@),
            rest == sv.skip(pv.len() as int),
            r@ == join_segments(rest.take(k - pre.len())),
        decreases segs.len() - k,
    {
        let ghost m = k - pre.len();
        assert(rest.take(m + 1).drop_last() =~= rest.take(m));
        assert(rest.take(m + 1).last() == segs@[k as int]@);
        if k == pre.len() {
            r = segs[k].clone();
            assert(rest.take(1) =~= seq![segs@[k as int]@]);
        } else {
            r = join_exec(r.as_str(), segs[k].as_str());
        }
        k = k + 1;
    }
    assert(rest.take(segs.len() - pre.len()) =~= rest);
    r
}

} // verus!
