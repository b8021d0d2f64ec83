//! Detection of a model's file format from its path.
use vstd::prelude::*;

verus! {

/// The model formats the viewer can load.
#[derive(Debug, Clone, Copy, PartialEq, Eq, Structural)]
pub enum ModelFormat {
    Obj,
    Gltf,
    Glb,
    Stl,
    Unknown,
}

/// End of `s[..end]` once the trailing `/` characters are removed.
pub open spec fn strip_slashes(s: Seq<char>, end: int) -> int
    decreases end,
{
    if 0 < end && end <= s.len() && s[end - 1] == '/' {
        strip_slashes(s, end - 1)
    } else {
        end
    }
}

/// Start of the last `/`-separated segment of `s[..end]`.
pub open spec fn segment_start(s: Seq<char>, end: int) -> int
    decreases end,
{
    if 0 < end && end <= s.len() && s[end - 1] != '/' {
        segment_start(s, end - 1)
    } else {
        end
    }
}

/// `s[start..end]` is the component `.`.
pub open spec fn is_cur_dir(s: Seq<char>, start: int, end: int) -> bool {
    end == start + 1 && s[start] == '.'
}

/// `s[start..end]` is the component `..`.
pub open spec fn is_parent_dir(s: Seq<char>, start: int, end: int) -> bool {
    end == start + 2 && s[start] == '.' && s[start + 1] == '.'
}

/// Bounds of the file name of the path `s[..end]` (Unix path grammar):
/// the last component once empty and `.` components are dropped; there is
/// none when that component is `..` or when no component is left.
pub open spec fn file_name_range(s: Seq<char>, end: int) -> Option<(int, int)>
    decreases end,
{
    let e = strip_slashes(s, end);
    if e <= 0 || e > s.len() || e > end {
        None
    } else {
        let st = segment_start(s, e);
        if is_cur_dir(s, st, e) {
            if st < end {
                file_name_range(s, st)
            } else {
                None
            }
        } else if is_parent_dir(s, st, e) {
            None
        } else {
            Some((st, e))
        }
    }
}

/// Index of the last `.` in `s[lo..hi]`, or `lo - 1` when there is none.
pub open spec fn last_dot(s: Seq<char>, lo: int, hi: int) -> int
    decreases hi - lo,
{
    if hi <= lo {
        lo - 1
    } else if s[hi - 1] == '.' {
        hi - 1
    } else {
        last_dot(s, lo, hi - 1)
    }
}

/// The extension of the path `s`: the text after the last `.` of its file
/// name, provided that `.` is not the file name's first character.
pub open spec fn extension(s: Seq<char>) -> Option<Seq<char>> {
    match file_name_range(s, s.len() as int) {
        None => None,
        Some((st, e)) => {
            let d = last_dot(s, st, e);
            if d <= st {
                None
            } else {
                Some(s.subrange(d + 1, e))
            }
        },
    }
}

/// ASCII lower-casing of one character.
pub open spec fn ascii_lower(c: char) -> char {
    if 'A' <= c && c <= 'Z' {
        ((c as int) + 32) as char
    } else {
        c
    }
}

/// `ext` equals the lower-case word `word` once lower-cased.
///
/// For the words used here this is the same as comparing the Unicode
/// lower-casing of `ext`: no character outside ASCII lower-cases to one of
/// their letters.
pub open spec fn matches_word(ext: Seq<char>, word: Seq<char>) -> bool {
    &&& ext.len() == word.len()
    &&& forall|i: int| 0 <= i < ext.len() ==> ascii_lower(#[trigger] ext[i]) == word[i]
}

pub open spec fn obj_word() -> Seq<char> {
    seq!['o', 'b', 'j']
}

pub open spec fn gltf_word() -> Seq<char> {
    seq!['g', 'l', 't', 'f']
}

pub open spec fn glb_word() -> Seq<char> {
    seq!['g', 'l', 'b']
}

pub open spec fn stl_word() -> Seq<char> {
    seq!['s', 't', 'l']
}

/// The format that the extension `ext` names.
pub open spec fn format_of_extension(ext: Seq<char>) -> ModelFormat {
    if matches_word(ext, obj_word()) {
        ModelFormat::Obj
    } else if matches_word(ext, gltf_word()) {
        ModelFormat::Gltf
    } else if matches_word(ext, glb_word()) {
        ModelFormat::Glb
    } else if matches_word(ext, stl_word()) {
        ModelFormat::Stl
    } else {
        ModelFormat::Unknown
    }
}

/// The format of the model at path `p`, by the extension of its file name;
/// a path without an extension is of unknown format.
pub open spec fn format_of_path(p: Seq<char>) -> ModelFormat {
    match extension(p) {
        Some(ext) => format_of_extension(ext),
        None => ModelFormat::Unknown,
    }
}


/// `p` with its ASCII letters lower-cased.
pub open spec fn lower_path(p: Seq<char>) -> Seq<char> {
    p.map_values(|c: char| ascii_lower(c))
}

proof fn lemma_lower_keeps_separators(c: char)
    ensures
        (ascii_lower(c) == '/') == (c == '/'),
        (ascii_lower(c) == '.') == (c == '.'),
        ascii_lower(ascii_lower(c)) == ascii_lower(c),
{
}

proof fn lemma_lower_scan(p: Seq<char>, e: int)
    requires
        0 <= e <= p.len(),
    ensures
        strip_slashes(lower_path(p), e) == strip_slashes(p, e),
        segment_start(lower_path(p), e) == segment_start(p, e),
    decreases e,
{
    if e > 0 {
        lemma_lower_keeps_separators(p[e - 1]);
        lemma_lower_scan(p, e - 1);
    }
}

proof fn lemma_lower_file_name(p: Seq<char>, end: int)
    requires
        0 <= end <= p.len(),
    ensures
        file_name_range(lower_path(p), end) == file_name_range(p, end),
    decreases end,
{
    let q = lower_path(p);
    lemma_lower_scan(p, end);
    lemma_scan_bounds(p, end);
    let e = strip_slashes(p, end);
    if 0 < e && e <= p.len() && e <= end {
        lemma_lower_scan(p, e);
        lemma_scan_bounds(p, e);
        let st = segment_start(p, e);
        if 0 <= st < e {
            lemma_lower_keeps_separators(p[st]);
            assert(q[st] == ascii_lower(p[st]));
        }
        if 0 <= st && st + 1 < e {
            lemma_lower_keeps_separators(p[st + 1]);
            assert(q[st + 1] == ascii_lower(p[st + 1]));
        }
        if is_cur_dir(p, st, e) && st < end {
            lemma_lower_file_name(p, st);
        }
    }
}

proof fn lemma_lower_last_dot(p: Seq<char>, lo: int, hi: int)
    requires
        0 <= lo,
        hi <= p.len(),
    ensures
        last_dot(lower_path(p), lo, hi) == last_dot(p, lo, hi),
    decreases hi - lo,
{
    if lo < hi {
        lemma_lower_keeps_separators(p[hi - 1]);
        lemma_lower_last_dot(p, lo, hi - 1);
    }
}

/// Format detection ignores the case of ASCII letters in the path.
pub proof fn lemma_format_ignores_case(p: Seq<char>)
    ensures
        format_of_path(lower_path(p)) == format_of_path(p),
{
    let q = lower_path(p);
    lemma_lower_file_name(p, p.len() as int);
    match file_name_range(p, p.len() as int) {
        None => {},
        Some((st, e)) => {
            lemma_file_name_range_bounds(p, p.len() as int);
            lemma_lower_last_dot(p, st, e);
            lemma_last_dot_bounds(p, st, e);
            let d = last_dot(p, st, e);
            if d > st {
                let ext = p.subrange(d + 1, e);
                let lext = q.subrange(d + 1, e);
                assert forall|i: int| 0 <= i < ext.len() implies ascii_lower(#[trigger] lext[i]) == ascii_lower(ext[i]) by {
                    lemma_lower_keeps_separators(ext[i]);
                    assert(lext[i] == q[d + 1 + i]);
                    assert(q[d + 1 + i] == ascii_lower(p[d + 1 + i]));
                }
                lemma_matches_same_lower(lext, ext, obj_word());
                lemma_matches_same_lower(lext, ext, gltf_word());
                lemma_matches_same_lower(lext, ext, glb_word());
                lemma_matches_same_lower(lext, ext, stl_word());
            }
        },
    }
}

proof fn lemma_matches_same_lower(a: Seq<char>, b: Seq<char>, w: Seq<char>)
    requires
        a.len() == b.len(),
        forall|i: int| 0 <= i < a.len() ==> ascii_lower(#[trigger] a[i]) == ascii_lower(b[i]),
    ensures
        matches_word(a, w) == matches_word(b, w),
{
    if matches_word(a, w) {
        assert forall|i: int| 0 <= i < b.len() implies ascii_lower(#[trigger] b[i]) == w[i] by {
            assert(ascii_lower(a[i]) == ascii_lower(b[i]));
        }
    }
    if matches_word(b, w) {
        assert forall|i: int| 0 <= i < a.len() implies ascii_lower(#[trigger] a[i]) == w[i] by {
            assert(ascii_lower(a[i]) == ascii_lower(b[i]));
        }
    }
}

proof fn lemma_last_dot_bounds(p: Seq<char>, lo: int, hi: int)
    requires
        lo <= hi,
    ensures
        lo - 1 <= last_dot(p, lo, hi) < hi,
    decreases hi - lo,
{
    if lo < hi {
        lemma_last_dot_bounds(p, lo, hi - 1);
    }
}

proof fn lemma_scan_bounds(p: Seq<char>, e: int)
    requires
        0 <= e <= p.len(),
    ensures
        0 <= strip_slashes(p, e) <= e,
        0 <= segment_start(p, e) <= e,
    decreases e,
{
    if e > 0 {
        lemma_scan_bounds(p, e - 1);
    }
}

proof fn lemma_file_name_range_bounds(p: Seq<char>, end: int)
    requires
        0 <= end <= p.len(),
    ensures
        file_name_range(p, end) matches Some((st, e)) ==> 0 <= st <= e <= end,
    decreases end,
{
    lemma_scan_bounds(p, end);
    let e = strip_slashes(p, end);
    if 0 < e {
        lemma_scan_bounds(p, e);
        let st = segment_start(p, e);
        if is_cur_dir(p, st, e) && st < end {
            lemma_file_name_range_bounds(p, st);
        }
    }
}

/// Whether `c` lower-cases (ASCII) to the lower-case letter `w`.
fn char_matches(c: char, w: char) -> (r: bool)
    requires
        'a' <= w && w <= 'z',
    ensures
        r == (ascii_lower(c) == w),
{
    let cu = c as u32;
    let wu = w as u32;
    cu == wu || cu + 32 == wu
}

/// Whether `cs[start..end]` lower-cases to `word`.
fn range_matches(cs: &Vec<char>, start: usize, end: usize, word: &[char]) -> (r: bool)
    requires
        start <= end <= cs.len(),
        forall|i: int| 0 <= i < word@.len() ==> 'a' <= #[trigger] word@[i] && word@[i] <= 'z',
    ensures
        r == matches_word(cs@.subrange(start as int, end as int), word@),
{
    let ghost ext = cs@.subrange(start as int, end as int);
    if end - start != word.len() {
        return false;
    }
    let mut i: usize = 0;
    while i < word.len()
        invariant
            start <= end <= cs.len(),
            end - start == word@.len(),
            ext == cs@.subrange(start as int, end as int),
            i <= word@.len(),
            forall|j: int| 0 <= j < word@.len() ==> 'a' <= #[trigger] word@[j] && word@[j] <= 'z',
            forall|j: int| 0 <= j < i ==> ascii_lower(#[trigger] ext[j]) == word@[j],
        decreases word@.len() - i,
    {
        if !char_matches(cs[start + i], word[i]) {
            assert(ascii_lower(ext[i as int]) != word@[i as int]);
            return false;
        }
        i = i + 1;
    }
    true
}

impl ModelFormat {
    /// Detects the format of the model at `path` from the extension of its
    /// file name, ignoring case: `obj`, `gltf`, `glb` and `stl`; anything
    /// else, or no extension at all, is `Unknown`.
    pub fn from_path(path: &str) -> (r: ModelFormat)
        ensures
            r == format_of_path(path@),
    {
        let ghost s = path@;
        let n = path.unicode_len();
        let mut cs: Vec<char> = Vec::new();
        let mut k: usize = 0;
        while k < n
            invariant
                n == s.len(),
                k <= n,
                path@ == s,
                cs@ == s.subrange(0, k as int),
            decreases n - k,
        {
            let c = path.get_char(k);
            cs.push(c);
            k = k + 1;
        }
        assert(cs@ == s);

        // Find the file name: the last component that is neither empty nor `.`.
        let mut end: usize = n;
        let mut range: Option<(usize, usize)> = None;
        loop
            invariant_except_break
                range is None,
            invariant
                cs@ == s,
                n == s.len(),
                end <= n,
                file_name_range(s, end as int) == file_name_range(s, n as int),
            ensures
                match range {
                    None => file_name_range(s, n as int) is None,
                    Some((a, b)) => file_name_range(s, n as int) == Some((a as int, b as int))
                        && a <= b <= n,
                },
            decreases end,
        {
            let mut e: usize = end;
            while e > 0 && cs[e - 1] == '/'
                invariant
                    cs@ == s,
                    n == s.len(),
                    e <= end <= n,
                    strip_slashes(s, e as int) == strip_slashes(s, end as int),
                decreases e,
            {
                e = e - 1;
            }
            assert(strip_slashes(s, e as int) == e);
            if e == 0 {
                break;
            }
            let mut st: usize = e;
            while st > 0 && cs[st - 1] != '/'
                invariant
                    cs@ == s,
                    n == s.len(),
                    st <= e <= end <= n,
                    segment_start(s, st as int) == segment_start(s, e as int),
                decreases st,
            {
                st = st - 1;
            }
            assert(segment_start(s, st as int) == st);
            if e - st == 1 && cs[st] == '.' {
                end = st;
            } else if e - st == 2 && cs[st] == '.' && cs[st + 1] == '.' {
                break;
            } else {
                range = Some((st, e));
                break;
            }
        }

        match range {
            None => ModelFormat::Unknown,
            Some((st, e)) => {
                // Find the last `.` of the file name.
                let mut d: usize = e;
                while d > st && cs[d - 1] != '.'
                    invariant
                        cs@ == s,
                        st <= d <= e <= n,
                        n == s.len(),
                        last_dot(s, st as int, d as int) == last_dot(s, st as int, e as int),
                    decreases d,
                {
                    d = d - 1;
                }
                if d - st <= 1 {
                    ModelFormat::Unknown
                } else {
                    let ghost ext = s.subrange(d as int, e as int);
                    assert(extension(s) == Some(ext));
                    if range_matches(&cs, d, e, &['o', 'b', 'j']) {
                        ModelFormat::Obj
                    } else if range_matches(&cs, d, e, &['g', 'l', 't', 'f']) {
                        ModelFormat::Gltf
                    } else if range_matches(&cs, d, e, &['g', 'l', 'b']) {
                        ModelFormat::Glb
                    } else if range_matches(&cs, d, e, &['s', 't', 'l']) {
                        ModelFormat::Stl
                    } else {
                        ModelFormat::Unknown
                    }
                }
            },
        }
    }
}

} // verus!
