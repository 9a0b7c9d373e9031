//! URL patterns such as `/products/<id:num>/<sku:str>` and the test of a request
//! path against them.
use vstd::prelude::*;
use crate::text::{
    lemma_split_seq_append_piece, lemma_split_seq_pieces_lack,
    chars_of, contains_char, decimal_text, law_decimal_text_parses, lemma_split_seq_push_sep,
    nonempty_pieces, nonempty_split, parses_as_u64, parses_u64, split_seq, text_eq,
};

verus! {

broadcast use vstd::string::group_string_axioms;

/// One segment of a URL pattern.
#[derive(Debug, PartialEq)]
pub enum PathType {
    /// A literal segment that the path must repeat exactly.
    Static(String),
    /// A named variable that takes any text `str::parse::<u64>` accepts.
    Number(String),
    /// A named variable that takes any nonempty text.
    Str(String),
}

/// What a [`PathType`] holds, as character sequences.
pub enum PathPart {
    Static(Seq<char>),
    Number(Seq<char>),
    Str(Seq<char>),
}

impl View for PathType {
    type V = PathPart;

    open spec fn view(&self) -> PathPart {
        match self {
            PathType::Static(s) => PathPart::Static(s@),
            PathType::Number(s) => PathPart::Number(s@),
            PathType::Str(s) => PathPart::Str(s@),
        }
    }
}

/// Why a URL pattern is refused.
#[derive(Debug, Clone, Copy, PartialEq, Eq, Structural)]
pub enum PatternError {
    /// A variable whose type is neither `num` nor `str`.
    InvalidType,
    /// A `<...>` segment without both a name and a type.
    InvalidVariable,
}

impl PatternError {
    /// The message that describes the error.
    pub fn message(&self) -> (m: &'static str)
        ensures
            m@ == match self {
                PatternError::InvalidType => "invalid type for req param"@,
                PatternError::InvalidVariable => "invalid dynamic path variable"@,
            },
    {
        match self {
            PatternError::InvalidType => "invalid type for req param",
            PatternError::InvalidVariable => "invalid dynamic path variable",
        }
    }
}

/// The name and the type text read from a `<name:type>` segment. The scan goes
/// left to right: `<` sends the following characters to the name, `:` to the
/// type, `>` ends the scan; characters read before any `<` or `:` are dropped.
pub open spec fn scan_variable(s: Seq<char>, mode: u8, name: Seq<char>, kind: Seq<char>) -> (
    Seq<char>,
    Seq<char>,
)
    decreases s.len(),
{
    if s.len() == 0 {
        (name, kind)
    } else {
        let c = s[0];
        let rest = s.drop_first();
        if c == '<' {
            scan_variable(rest, 1, name, kind)
        } else if c == ':' {
            scan_variable(rest, 2, name, kind)
        } else if c == '>' {
            (name, kind)
        } else if mode == 1 {
            scan_variable(rest, mode, name.push(c), kind)
        } else if mode == 2 {
            scan_variable(rest, mode, name, kind.push(c))
        } else {
            scan_variable(rest, mode, name, kind)
        }
    }
}

/// The type text of a number variable.
pub open spec fn num_kind() -> Seq<char> {
    seq!['n', 'u', 'm']
}

/// The type text of a string variable.
pub open spec fn str_kind() -> Seq<char> {
    seq!['s', 't', 'r']
}

/// The meaning of one nonempty pattern segment: a segment that holds both `<`
/// and `>` is a variable, any other is literal.
pub open spec fn segment_part(seg: Seq<char>) -> Result<PathPart, PatternError> {
    if seg.contains('<') && seg.contains('>') {
        let (name, kind) = scan_variable(seg, 0, Seq::empty(), Seq::empty());
        if name.len() > 0 && kind.len() > 0 {
            if kind == num_kind() {
                Ok(PathPart::Number(name))
            } else if kind == str_kind() {
                Ok(PathPart::Str(name))
            } else {
                Err(PatternError::InvalidType)
            }
        } else {
            Err(PatternError::InvalidVariable)
        }
    } else {
        Ok(PathPart::Static(seg))
    }
}

/// The meaning of a list of segments: the first refused segment decides the
/// error.
pub open spec fn segment_parts(segs: Seq<Seq<char>>) -> Result<Seq<PathPart>, PatternError>
    decreases segs.len(),
{
    if segs.len() == 0 {
        Ok(Seq::empty())
    } else {
        match segment_part(segs[0]) {
            Err(e) => Err(e),
            Ok(p) => match segment_parts(segs.drop_first()) {
                Ok(ps) => Ok(seq![p] + ps),
                Err(e) => Err(e),
            },
        }
    }
}

/// The nonempty `/`-separated segments of a path.
pub open spec fn path_segments(path: Seq<char>) -> Seq<Seq<char>> {
    nonempty_pieces(split_seq(path, '/'))
}

/// The meaning of a URL pattern text.
pub open spec fn parse_pattern(path: Seq<char>) -> Result<Seq<PathPart>, PatternError> {
    segment_parts(path_segments(path))
}

/// Whether a path segment is accepted by a pattern segment.
pub open spec fn segment_matches(part: PathPart, seg: Seq<char>) -> bool {
    match part {
        PathPart::Static(lit) => seg == lit,
        PathPart::Number(_) => parses_as_u64(seg),
        PathPart::Str(_) => seg.len() > 0,
    }
}

/// Whether a path is accepted by a pattern: as many segments, each accepted.
pub open spec fn path_matches(parts: Seq<PathPart>, path: Seq<char>) -> bool {
    let segs = path_segments(path);
    &&& parts.len() == segs.len()
    &&& forall|i: int| 0 <= i < segs.len() ==> segment_matches(parts[i], #[trigger] segs[i])
}

/// The views of a list of path types.
pub open spec fn parts_view(v: Seq<PathType>) -> Seq<PathPart> {
    v.map_values(|p: PathType| p@)
}

/// Reads the name and the type of a `<name:type>` segment.
fn scan_segment(seg: &str, cs: &Vec<char>) -> (res: (String, String))
    requires
        cs@ == seg@,
    ensures
        (res.0@, res.1@) == scan_variable(seg@, 0, Seq::empty(), Seq::empty()),
{
    let mut mode: u8 = 0;
    let mut name = String::new();
    let mut kind = String::new();
    let mut i: usize = 0;
    assert(seg@.skip(0) =~= seg@);
    while i < cs.len()
        invariant
            cs@ == seg@,
            i <= cs.len(),
            scan_variable(seg@, 0, Seq::empty(), Seq::empty()) == scan_variable(
                seg@.skip(i as int),
                mode,
                name@,
                kind@,
            ),
        ensures
            scan_variable(seg@, 0, Seq::empty(), Seq::empty()) == (name@, kind@),
        decreases cs.len() - i,
    {
        let c = cs[i];
        assert(seg@.skip(i as int)[0] == c);
        assert(seg@.skip(i as int).drop_first() =~= seg@.skip(i + 1));
        if c == '<' {
            mode = 1;
        } else if c == ':' {
            mode = 2;
        } else if c == '>' {
            break ;
        } else if mode == 1 {
            let one = seg.substring_char(i, i + 1);
            assert(one@ =~= seq![c]);
            let ghost old_name = name@;
            name.append(one);
            assert(name@ =~= old_name.push(c));
        } else if mode == 2 {
            let one = seg.substring_char(i, i + 1);
            assert(one@ =~= seq![c]);
            let ghost old_kind = kind@;
            kind.append(one);
            assert(kind@ =~= old_kind.push(c));
        }
        i = i + 1;
    }
    (name, kind)
}

/// Reads one nonempty pattern segment.
pub fn parse_segment(seg: &str) -> (res: Result<PathType, PatternError>)
    ensures
        match res {
            Ok(p) => segment_part(seg@) == Ok::<PathPart, PatternError>(p@),
            Err(e) => segment_part(seg@) == Err::<PathPart, PatternError>(e),
        },
{
    let cs = chars_of(seg);
    if contains_char(&cs, '<') && contains_char(&cs, '>') {
        let (name, kind) = scan_segment(seg, &cs);
        if !name.as_str().is_empty() && !kind.as_str().is_empty() {
            proof {
                reveal_strlit("num");
                reveal_strlit("str");
            }
            assert("num"@ =~= num_kind());
            assert("str"@ =~= str_kind());
            if text_eq(kind.as_str(), "num") {
                Ok(PathType::Number(name))
            } else if text_eq(kind.as_str(), "str") {
                Ok(PathType::Str(name))
            } else {
                Err(PatternError::InvalidType)
            }
        } else {
            Err(PatternError::InvalidVariable)
        }
    } else {
        Ok(PathType::Static(String::from_str(seg)))
    }
}

/// Reads a URL pattern: each nonempty `/`-separated segment is a literal or a
/// `<name:num>` / `<name:str>` variable. Refuses the pattern at its first bad
/// segment.
pub fn parse_url_pattern(path: &str) -> (res: Result<Vec<PathType>, PatternError>)
    ensures
        match res {
            Ok(v) => parse_pattern(path@) == Ok::<Seq<PathPart>, PatternError>(parts_view(v@)),
            Err(e) => parse_pattern(path@) == Err::<Seq<PathPart>, PatternError>(e),
        },
{
    let segs = nonempty_split(path, '/');
    let ghost all = segs.deep_view();
    let mut out: Vec<PathType> = Vec::new();
    let mut i: usize = 0;
    assert(all.skip(0) =~= all);
    assert(parts_view(out@) + Seq::<PathPart>::empty() =~= Seq::<PathPart>::empty());
    while i < segs.len()
        invariant
            all == segs.deep_view(),
            all == path_segments(path@),
            i <= segs.len(),
            match segment_parts(all.skip(i as int)) {
                Ok(ps) => segment_parts(all) == Ok::<Seq<PathPart>, PatternError>(
                    parts_view(out@) + ps,
                ),
                Err(e) => segment_parts(all) == Err::<Seq<PathPart>, PatternError>(e),
            },
        decreases segs.len() - i,
    {
        assert(all.skip(i as int)[0] == segs[i as int]@);
        assert(all.skip(i as int).drop_first() =~= all.skip(i + 1));
        match parse_segment(segs[i].as_str()) {
            Ok(p) => {
                let ghost before = parts_view(out@);
                out.push(p);
                proof {
                    assert(parts_view(out@) =~= before.push(p@));
                    match segment_parts(all.skip(i + 1)) {
                        Ok(ps) => {
                            assert(before + (seq![p@] + ps) =~= parts_view(out@) + ps);
                        },
                        Err(e) => {},
                    }
                }
            },
            Err(e) => {
                return Err(e);
            },
        }
        i = i + 1;
    }
    assert(all.skip(segs.len() as int) =~= Seq::<Seq<char>>::empty());
    assert(parts_view(out@) + Seq::<PathPart>::empty() =~= parts_view(out@));
    Ok(out)
}

/// A URL pattern together with the view that serves the paths it accepts.
pub struct UrlPattern<V> {
    pub view: V,
    path_expr: Vec<PathType>,
}

impl<V> UrlPattern<V> {
    /// The view held by the pattern.
    pub closed spec fn handler(&self) -> V {
        self.view
    }

    /// The segments of the pattern.
    pub closed spec fn parts(&self) -> Seq<PathPart> {
        parts_view(self.path_expr@)
    }

    /// Builds the pattern from its text. The text must be a valid pattern (see
    /// [`parse_url_pattern`], which tells why one is not).
    pub fn new(path: String, view: V) -> (p: UrlPattern<V>)
        requires
            parse_pattern(path@) is Ok,
        ensures
            p.handler() == view,
            parse_pattern(path@) == Ok::<Seq<PathPart>, PatternError>(p.parts()),
    {
        UrlPattern { view, path_expr: Self::get_url_pattern(path) }
    }

    /// The segments of a valid pattern text.
    pub fn get_url_pattern(path: String) -> (v: Vec<PathType>)
        requires
            parse_pattern(path@) is Ok,
        ensures
            parse_pattern(path@) == Ok::<Seq<PathPart>, PatternError>(parts_view(v@)),
    {
        match parse_url_pattern(path.as_str()) {
            Ok(v) => v,
            Err(_) => Vec::new(),
        }
    }

    /// The segments of the pattern.
    pub fn path_expr(&self) -> (v: &Vec<PathType>)
        ensures
            parts_view(v@) == self.parts(),
    {
        &self.path_expr
    }

    /// Whether `path` is accepted by the pattern: it has as many nonempty
    /// segments as the pattern, a literal segment is repeated exactly, a number
    /// variable takes what `str::parse::<u64>` accepts and a string variable
    /// any nonempty text.
    pub fn is_valid_path(&self, path: String) -> (ok: bool)
        ensures
            ok == path_matches(self.parts(), path@),
    {
        let split = nonempty_split(path.as_str(), '/');
        let ghost segs = split.deep_view();
        let n = self.path_expr.len();
        if n != split.len() {
            return false;
        }
        let mut i: usize = 0;
        while i < n
            invariant
                segs == split.deep_view(),
                segs == path_segments(path@),
                n == self.path_expr.len(),
                n == split.len(),
                i <= n,
                forall|k: int| 0 <= k < i ==> segment_matches(self.parts()[k], #[trigger] segs[k]),
            decreases n - i,
        {
            assert(self.parts()[i as int] == self.path_expr[i as int]@);
            assert(segs[i as int] == split[i as int]@);
            match &self.path_expr[i] {
                PathType::Static(lit) => {
                    if !text_eq(split[i].as_str(), lit.as_str()) {
                        return false;
                    }
                },
                PathType::Number(_) => {
                    if !parses_u64(split[i].as_str()) {
                        return false;
                    }
                },
                PathType::Str(_) => {
                    if split[i].as_str().is_empty() {
                        return false;
                    }
                },
            }
            i = i + 1;
        }
        true
    }
}

/// The index of the first pattern that accepts `path`, if any.
pub fn first_match<V>(patterns: &Vec<UrlPattern<V>>, path: &str) -> (found: Option<usize>)
    ensures
        match found {
            Some(i) => i < patterns@.len() && path_matches(patterns@[i as int].parts(), path@)
                && forall|k: int| 0 <= k < i ==> !path_matches(#[trigger] patterns@[k].parts(), path@),
            None => forall|k: int|
                0 <= k < patterns@.len() ==> !path_matches(#[trigger] patterns@[k].parts(), path@),
        },
{
    let mut i: usize = 0;
    while i < patterns.len()
        invariant
            i <= patterns.len(),
            forall|k: int| 0 <= k < i ==> !path_matches(#[trigger] patterns@[k].parts(), path@),
        decreases patterns.len() - i,
    {
        if patterns[i].is_valid_path(String::from_str(path)) {
            return Some(i);
        }
        i = i + 1;
    }
    None
}


/// A `/` at the end of a path does not change whether a pattern accepts it.
pub proof fn law_trailing_slash(parts: Seq<PathPart>, path: Seq<char>)
    ensures
        path_matches(parts, path.push('/')) == path_matches(parts, path),
{
    lemma_split_seq_push_sep(path, '/');
    let ps = split_seq(path, '/');
    assert(ps.push(Seq::empty()).drop_last() =~= ps);
    assert(path_segments(path.push('/')) == path_segments(path)) by {
        reveal_with_fuel(Seq::<_>::filter, 1);
    }
}

/// The parts read from literal segments are those segments.
proof fn lemma_literal_parts(segs: Seq<Seq<char>>)
    requires
        segment_parts(segs) is Ok,
        forall|i: int|
            0 <= i < (segment_parts(segs)->Ok_0).len() ==> (#[trigger] (segment_parts(segs)->Ok_0)[i]) is Static,
    ensures
        (segment_parts(segs)->Ok_0).len() == segs.len(),
        forall|i: int| 0 <= i < segs.len() ==> (segment_parts(segs)->Ok_0)[i] == PathPart::Static(#[trigger] segs[i]),
    decreases segs.len(),
{
    if segs.len() > 0 {
        let parts = segment_parts(segs)->Ok_0;
        let rest = segment_parts(segs.drop_first())->Ok_0;
        assert(parts[0] is Static);
        assert forall|i: int| 0 <= i < rest.len() implies (#[trigger] rest[i]) is Static by {
            assert(parts[i + 1] == rest[i]);
        }
        lemma_literal_parts(segs.drop_first());
        assert forall|i: int| 0 <= i < segs.len() implies parts[i] == PathPart::Static(#[trigger] segs[i]) by {
            if i > 0 {
                assert(parts[i] == rest[i - 1]);
                assert(segs.drop_first()[i - 1] == segs[i]);
            }
        }
    }
}

/// A pattern made of literal segments only accepts its own text.
pub proof fn law_literal_pattern_accepts_itself(text: Seq<char>)
    requires
        parse_pattern(text) is Ok,
        forall|i: int|
            0 <= i < (parse_pattern(text)->Ok_0).len() ==> (#[trigger] (parse_pattern(text)->Ok_0)[i]) is Static,
    ensures
        path_matches(parse_pattern(text)->Ok_0, text),
{
    lemma_literal_parts(path_segments(text));
}

/// Every `u64`, written in decimal, is taken by a number variable.
pub proof fn law_number_variable_takes_decimals(name: Seq<char>, n: nat)
    requires
        n <= u64::MAX,
    ensures
        segment_matches(PathPart::Number(name), decimal_text(n)),
{
    law_decimal_text_parses(n);
}

/// A string variable accepts every nonempty segment, whatever its text.
pub proof fn law_str_variable_takes_any_segment(name: Seq<char>, seg: Seq<char>)
    requires
        seg.len() > 0,
    ensures
        segment_matches(PathPart::Str(name), seg),
{
}

/// A literal segment followed by a string variable accepts the path of that
/// literal followed by any nonempty segment.
pub proof fn law_literal_then_str_variable(lit: Seq<char>, name: Seq<char>, seg: Seq<char>)
    requires
        lit.len() > 0,
        seg.len() > 0,
        !lit.contains('/'),
        !seg.contains('/'),
    ensures
        path_matches(
            seq![PathPart::Static(lit), PathPart::Str(name)],
            seq!['/'] + lit + seq!['/'] + seg,
        ),
{
    let e = Seq::<char>::empty();
    let x = seq!['/'] + lit;
    assert(x =~= e.push('/') + lit);
    lemma_split_seq_append_piece(e, '/', lit);
    assert(split_seq(e, '/') == seq![e]);
    let path = seq!['/'] + lit + seq!['/'] + seg;
    assert(path =~= x.push('/') + seg);
    lemma_split_seq_append_piece(x, '/', seg);
    let ps = split_seq(path, '/');
    assert(ps =~= seq![e, lit, seg]);
    assert(path_segments(path) =~= seq![lit, seg]) by {
        reveal_with_fuel(Seq::<_>::filter, 4);
        assert(ps.drop_last() =~= seq![e, lit]);
        assert(ps.drop_last().drop_last() =~= seq![e]);
        assert(ps.drop_last().drop_last().drop_last() =~= Seq::<Seq<char>>::empty());
    }
}

/// Segments without `<` read as literals of their own text.
proof fn lemma_segments_literal(segs: Seq<Seq<char>>)
    requires
        forall|i: int| 0 <= i < segs.len() ==> !(#[trigger] segs[i]).contains('<'),
    ensures
        segment_parts(segs) == Ok::<Seq<PathPart>, PatternError>(
            segs.map_values(|s: Seq<char>| PathPart::Static(s)),
        ),
    decreases segs.len(),
{
    if segs.len() > 0 {
        let rest = segs.drop_first();
        assert forall|i: int| 0 <= i < rest.len() implies !(#[trigger] rest[i]).contains('<') by {
            assert(rest[i] == segs[i + 1]);
        }
        lemma_segments_literal(rest);
        assert(!segs[0].contains('<'));
        assert(seq![PathPart::Static(segs[0])] + rest.map_values(|s: Seq<char>| PathPart::Static(s))
            =~= segs.map_values(|s: Seq<char>| PathPart::Static(s)));
    } else {
        assert(segs.map_values(|s: Seq<char>| PathPart::Static(s)) =~= Seq::<PathPart>::empty());
    }
}

/// A pattern text without `<` reads as the literal segments of its text, and
/// it accepts exactly the paths that have the same nonempty segments: a path
/// whose segment differs from the pattern's in any place is refused.
pub proof fn law_literal_pattern(text: Seq<char>, path: Seq<char>)
    requires
        !text.contains('<'),
    ensures
        parse_pattern(text) == Ok::<Seq<PathPart>, PatternError>(
            path_segments(text).map_values(|s: Seq<char>| PathPart::Static(s)),
        ),
        path_matches(parse_pattern(text)->Ok_0, path) <==> path_segments(path) == path_segments(
            text,
        ),
{
    let ps = split_seq(text, '/');
    let segs = path_segments(text);
    lemma_split_seq_pieces_lack(text, '/', '<');
    assert forall|i: int| 0 <= i < segs.len() implies !(#[trigger] segs[i]).contains('<') by {
        assert(segs.contains(segs[i]));
        ps.lemma_filter_contains_rev(|p: Seq<char>| p.len() > 0, segs[i]);
        assert(ps.contains(segs[i]));
        let j = choose|j: int| 0 <= j < ps.len() && ps[j] == segs[i];
        assert(!ps[j].contains('<'));
    }
    lemma_segments_literal(segs);
    let parts = segs.map_values(|s: Seq<char>| PathPart::Static(s));
    let psegs = path_segments(path);
    if path_matches(parts, path) {
        assert forall|i: int| 0 <= i < psegs.len() implies psegs[i] == segs[i] by {
            assert(segment_matches(parts[i], psegs[i]));
        }
        assert(psegs =~= segs);
    }
    if psegs == segs {
        assert forall|i: int| 0 <= i < psegs.len() implies segment_matches(parts[i], #[trigger] psegs[i]) by {
            assert(parts[i] == PathPart::Static(segs[i]));
        }
    }
}

} // verus!
