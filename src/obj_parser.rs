use vstd::prelude::*;
use vstd::slice::slice_subrange;
use vstd::std_specs::cmp::PartialEqSpec;
use vstd::utf8::encode_utf8;

use crate::obj_syntax::{
    check_float_literal, equals_word, face_element_value, is_float_literal,
    parse_face_element_vertex_string, split_bytes, words, SPACE,
};
use crate::unique_list::{byte_strings, UniqueList};

verus! {

/// The three numeric tokens of a `v` or `vn` line, as written in the file.
/// Each is a number that `str::parse` reads as a floating-point value.
#[derive(Debug)]
pub struct NumberTokens {
    pub x: Vec<u8>,
    pub y: Vec<u8>,
    pub z: Vec<u8>,
}

impl View for NumberTokens {
    type V = Seq<Seq<u8>>;

    open spec fn view(&self) -> Seq<Seq<u8>> {
        seq![self.x@, self.y@, self.z@]
    }
}

/// A triangle of a face: three vertex positions and, where the face gave them,
/// three vertex-normal positions; all counted from 0 in the order of the file.
#[derive(Clone, Copy, Debug, PartialEq, Eq, Structural)]
pub struct FaceTriangle {
    pub p1: usize,
    pub p2: usize,
    pub p3: usize,
    pub normals: Option<NormalIndices>,
}

/// The positions of a triangle's three vertex normals, counted from 0.
#[derive(Clone, Copy, Debug, PartialEq, Eq, Structural)]
pub struct NormalIndices {
    pub n1: usize,
    pub n2: usize,
    pub n3: usize,
}

/// What an `.obj` file declares: its vertices and vertex normals, as tokens, and
/// its faces, split into triangles.
#[derive(Debug)]
pub struct ObjDocument {
    pub vertices: Vec<NumberTokens>,
    pub normals: Vec<NumberTokens>,
    pub triangles: Vec<FaceTriangle>,
}

/// The contents of an `ObjDocument`.
pub struct ObjModel {
    pub vertices: Seq<Seq<Seq<u8>>>,
    pub normals: Seq<Seq<Seq<u8>>>,
    pub triangles: Seq<FaceTriangle>,
}

pub open spec fn token_lists(v: Seq<NumberTokens>) -> Seq<Seq<Seq<u8>>> {
    v.map_values(|t: NumberTokens| t@)
}

impl View for ObjDocument {
    type V = ObjModel;

    open spec fn view(&self) -> ObjModel {
        ObjModel {
            vertices: token_lists(self.vertices@),
            normals: token_lists(self.normals@),
            triangles: self.triangles@,
        }
    }
}

pub open spec fn empty_model() -> ObjModel {
    ObjModel { vertices: seq![], normals: seq![], triangles: seq![] }
}

/// Why a line of an `.obj` file was refused.
#[derive(Clone, Copy, Debug, PartialEq, Eq, Structural)]
pub enum LineProblem {
    /// A `v` line without exactly three numbers.
    VertexArity,
    /// A `v` line with a token that is no number.
    VertexNumber,
    /// A `vn` line without exactly three numbers.
    NormalArity,
    /// A `vn` line with a token that is no number.
    NormalNumber,
    /// A face with more than four vertices.
    TooManyFaceVertices,
    /// A face with fewer than three vertices.
    TooFewFaceVertices,
    /// A face element whose vertex position is missing or no number.
    MissingVertexIndex,
    /// A face element whose vertex position is 0 or past the vertices declared so far.
    VertexIndexOutOfRange,
    /// A face element whose normal position is 0 or past the normals declared so far.
    NormalIndexOutOfRange,
    /// A face that gives normals for some of its vertices but not for all.
    MixedVertexNormals,
}

/// Why an `.obj` file was refused.
#[derive(Debug)]
pub enum ObjError {
    /// A line was refused; `line_number` counts from 1.
    Line { problem: LineProblem, line_number: usize, line: String },
    /// No line declared a vertex, a normal or a face.
    NoObjData,
    /// The file declared no face.
    NoTriangles,
}

/// What handling one line does.
pub enum LineOutcome {
    Parsed(ObjModel),
    Skipped,
    Failed(LineProblem),
}

pub open spec fn word_v() -> Seq<u8> {
    seq![118u8]
}

pub open spec fn word_vn() -> Seq<u8> {
    seq![118u8, 110]
}

pub open spec fn word_f() -> Seq<u8> {
    seq![102u8]
}

pub open spec fn three_numbers(args: Seq<Seq<u8>>) -> bool {
    is_float_literal(args[0]) && is_float_literal(args[1]) && is_float_literal(args[2])
}

/// A `v` line with arguments `args`.
pub open spec fn vertex_line(m: ObjModel, args: Seq<Seq<u8>>) -> LineOutcome {
    if args.len() != 3 {
        LineOutcome::Failed(LineProblem::VertexArity)
    } else if !three_numbers(args) {
        LineOutcome::Failed(LineProblem::VertexNumber)
    } else {
        LineOutcome::Parsed(ObjModel { vertices: m.vertices.push(args), ..m })
    }
}

/// A `vn` line with arguments `args`.
pub open spec fn normal_line(m: ObjModel, args: Seq<Seq<u8>>) -> LineOutcome {
    if args.len() != 3 {
        LineOutcome::Failed(LineProblem::NormalArity)
    } else if !three_numbers(args) {
        LineOutcome::Failed(LineProblem::NormalNumber)
    } else {
        LineOutcome::Parsed(ObjModel { normals: m.normals.push(args), ..m })
    }
}

pub open spec fn vertex_missing(e: Seq<Option<usize>>) -> bool {
    e[0] is None
}

pub open spec fn out_of_range(n: Option<usize>, count: int) -> bool {
    n matches Some(k) && (k == 0 || k > count)
}

pub open spec fn has_normal(e: Seq<Option<usize>>) -> bool {
    e[2] is Some
}

/// The triangle of face elements `a`, `b`, `c` (as `face_element_value` reads
/// them), with `nv` vertices and `nn` normals declared so far.
pub open spec fn face_triangle_value(
    nv: int,
    nn: int,
    a: Seq<Option<usize>>,
    b: Seq<Option<usize>>,
    c: Seq<Option<usize>>,
) -> Result<FaceTriangle, LineProblem> {
    if vertex_missing(a) || vertex_missing(b) || vertex_missing(c) {
        Err(LineProblem::MissingVertexIndex)
    } else if out_of_range(a[0], nv) || out_of_range(b[0], nv) || out_of_range(c[0], nv) {
        Err(LineProblem::VertexIndexOutOfRange)
    } else if out_of_range(a[2], nn) || out_of_range(b[2], nn) || out_of_range(c[2], nn) {
        Err(LineProblem::NormalIndexOutOfRange)
    } else if (has_normal(a) || has_normal(b) || has_normal(c)) && !(has_normal(a) && has_normal(
        b,
    ) && has_normal(c)) {
        Err(LineProblem::MixedVertexNormals)
    } else {
        Ok(
            FaceTriangle {
                p1: (a[0].unwrap() - 1) as usize,
                p2: (b[0].unwrap() - 1) as usize,
                p3: (c[0].unwrap() - 1) as usize,
                normals: if has_normal(a) {
                    Some(
                        NormalIndices {
                            n1: (a[2].unwrap() - 1) as usize,
                            n2: (b[2].unwrap() - 1) as usize,
                            n3: (c[2].unwrap() - 1) as usize,
                        },
                    )
                } else {
                    None
                },
            },
        )
    }
}

/// The triangle of the face elements written `a`, `b`, `c`.
pub open spec fn triangle_of(m: ObjModel, a: Seq<u8>, b: Seq<u8>, c: Seq<u8>) -> Result<
    FaceTriangle,
    LineProblem,
> {
    face_triangle_value(
        m.vertices.len() as int,
        m.normals.len() as int,
        face_element_value(a),
        face_element_value(b),
        face_element_value(c),
    )
}

/// An `f` line with arguments `args`: a triangle, or a quad split into the
/// triangles (0, 1, 2) and (2, 3, 0).
pub open spec fn face_line(m: ObjModel, args: Seq<Seq<u8>>) -> LineOutcome {
    if args.len() > 4 {
        LineOutcome::Failed(LineProblem::TooManyFaceVertices)
    } else if args.len() < 3 {
        LineOutcome::Failed(LineProblem::TooFewFaceVertices)
    } else {
        match triangle_of(m, args[0], args[1], args[2]) {
            Err(p) => LineOutcome::Failed(p),
            Ok(t1) => if args.len() == 4 {
                match triangle_of(m, args[2], args[3], args[0]) {
                    Err(p) => LineOutcome::Failed(p),
                    Ok(t2) => LineOutcome::Parsed(
                        ObjModel { triangles: m.triangles.push(t1).push(t2), ..m },
                    ),
                }
            } else {
                LineOutcome::Parsed(ObjModel { triangles: m.triangles.push(t1), ..m })
            },
        }
    }
}

/// One line: fewer than two words, or a directive other than `v`, `vn`, `f`,
/// is skipped.
pub open spec fn line_outcome(m: ObjModel, line: Seq<u8>) -> LineOutcome {
    let w = words(line);
    if w.len() < 2 {
        LineOutcome::Skipped
    } else if w[0] == word_v() {
        vertex_line(m, w.skip(1))
    } else if w[0] == word_vn() {
        normal_line(m, w.skip(1))
    } else if w[0] == word_f() {
        face_line(m, w.skip(1))
    } else {
        LineOutcome::Skipped
    }
}

/// The first `n` lines: what they declare and how many were not skipped, or the
/// position of the first refused line and why.
pub open spec fn parse_prefix(lines: Seq<Seq<u8>>, n: int) -> Result<(ObjModel, nat), (int, LineProblem)>
    decreases n,
{
    if n <= 0 {
        Ok((empty_model(), 0))
    } else {
        match parse_prefix(lines, n - 1) {
            Err(e) => Err(e),
            Ok((m, c)) => match line_outcome(m, lines[n - 1]) {
                LineOutcome::Failed(p) => Err((n - 1, p)),
                LineOutcome::Skipped => Ok((m, c)),
                LineOutcome::Parsed(m2) => Ok((m2, c + 1)),
            },
        }
    }
}

/// Why a file is refused.
pub enum ObjFailure {
    /// At the line with this position (counted from 0).
    AtLine(int, LineProblem),
    NoObjData,
    NoTriangles,
}

/// A whole file, given as the bytes of its lines.
pub open spec fn parse_obj_lines(lines: Seq<Seq<u8>>) -> Result<ObjModel, ObjFailure> {
    match parse_prefix(lines, lines.len() as int) {
        Err((i, p)) => Err(ObjFailure::AtLine(i, p)),
        Ok((m, c)) => if c == 0 {
            Err(ObjFailure::NoObjData)
        } else if m.triangles.len() == 0 {
            Err(ObjFailure::NoTriangles)
        } else {
            Ok(m)
        },
    }
}

/// The UTF-8 bytes of each line.
pub open spec fn lines_bytes(lines: Seq<String>) -> Seq<Seq<u8>> {
    lines.map_values(|l: String| encode_utf8(l@))
}

/// `r` is what parsing `lines` gives.
pub open spec fn parse_reports(lines: Seq<String>, r: Result<ObjDocument, ObjError>) -> bool {
    match (r, parse_obj_lines(lines_bytes(lines))) {
        (Ok(d), Ok(m)) => d@ == m,
        (Err(ObjError::Line { problem, line_number, line }), Err(ObjFailure::AtLine(i, p))) => {
            &&& line_number == i + 1
            &&& problem == p
            &&& line@ == lines[i]@
        },
        (Err(ObjError::NoObjData), Err(ObjFailure::NoObjData)) => true,
        (Err(ObjError::NoTriangles), Err(ObjFailure::NoTriangles)) => true,
        _ => false,
    }
}

/// Each triangle's vertex positions fall among the model's vertices, and its
/// normal positions among its normals.
pub open spec fn triangle_fits(t: FaceTriangle, nv: int, nn: int) -> bool {
    &&& t.p1 < nv
    &&& t.p2 < nv
    &&& t.p3 < nv
    &&& t.normals matches Some(n) ==> n.n1 < nn && n.n2 < nn && n.n3 < nn
}

pub open spec fn indices_valid(m: ObjModel) -> bool {
    forall|i: int|
        0 <= i < m.triangles.len() ==> triangle_fits(
            #[trigger] m.triangles[i],
            m.vertices.len() as int,
            m.normals.len() as int,
        )
}

proof fn lemma_triangle_of_fits(m: ObjModel, a: Seq<u8>, b: Seq<u8>, c: Seq<u8>)
    ensures
        triangle_of(m, a, b, c) matches Ok(t) ==> triangle_fits(
            t,
            m.vertices.len() as int,
            m.normals.len() as int,
        ),
{
}

proof fn lemma_line_keeps_indices_valid(m: ObjModel, line: Seq<u8>)
    requires
        indices_valid(m),
    ensures
        line_outcome(m, line) matches LineOutcome::Parsed(m2) ==> indices_valid(m2),
{
    let w = words(line);
    if w.len() >= 2 && w[0] != word_v() && w[0] != word_vn() && w[0] == word_f() {
        let args = w.skip(1);
        if 3 <= args.len() <= 4 {
            lemma_triangle_of_fits(m, args[0], args[1], args[2]);
            if args.len() == 4 {
                lemma_triangle_of_fits(m, args[2], args[3], args[0]);
            }
        }
    }
}

/// Every prefix that is not refused declares triangles whose positions are valid.
pub proof fn lemma_parse_prefix_indices_valid(lines: Seq<Seq<u8>>, n: int)
    ensures
        parse_prefix(lines, n) matches Ok((m, c)) ==> indices_valid(m),
    decreases n,
{
    if n > 0 {
        lemma_parse_prefix_indices_valid(lines, n - 1);
        if let Ok((m, c)) = parse_prefix(lines, n - 1) {
            lemma_line_keeps_indices_valid(m, lines[n - 1]);
        }
    }
}

/// Once a line is refused, every longer prefix reports that refusal.
proof fn lemma_refusal_persists(lines: Seq<Seq<u8>>, k: int, n: int)
    requires
        0 <= k <= n,
        parse_prefix(lines, k) is Err,
    ensures
        parse_prefix(lines, n) == parse_prefix(lines, k),
    decreases n - k,
{
    if n > k {
        lemma_refusal_persists(lines, k, n - 1);
    }
}

/// A `v` line with other than three arguments refuses the file, citing that
/// line, unless an earlier line was refused.
pub proof fn lemma_vertex_arity_refused(lines: Seq<Seq<u8>>, i: int)
    requires
        0 <= i < lines.len(),
        parse_prefix(lines, i) is Ok,
        words(lines[i]).len() >= 2,
        words(lines[i])[0] == word_v(),
        words(lines[i]).len() != 4,
    ensures
        parse_obj_lines(lines) == Err::<ObjModel, ObjFailure>(
            ObjFailure::AtLine(i, LineProblem::VertexArity),
        ),
{
    assert(parse_prefix(lines, i + 1) == Err::<(ObjModel, nat), (int, LineProblem)>(
        (i, LineProblem::VertexArity),
    ));
    lemma_refusal_persists(lines, i + 1, lines.len() as int);
}

/// A face element whose vertex position is 0, or past the vertices declared
/// before its line, refuses the file at that line, unless an earlier line was
/// refused. `k` is the element's place among the line's words (the directive
/// `f` is word 0).
pub proof fn lemma_bad_vertex_reference_refused(lines: Seq<Seq<u8>>, i: int, k: int)
    requires
        0 <= i < lines.len(),
        parse_prefix(lines, i) is Ok,
        4 <= words(lines[i]).len() <= 5,
        words(lines[i])[0] == word_f(),
        1 <= k < words(lines[i]).len(),
        out_of_range(
            face_element_value(words(lines[i])[k])[0],
            parse_prefix(lines, i)->Ok_0.0.vertices.len() as int,
        ),
    ensures
        parse_obj_lines(lines) matches Err(ObjFailure::AtLine(j, _)) && j == i,
{
    let m = parse_prefix(lines, i)->Ok_0.0;
    let args = words(lines[i]).skip(1);
    assert(args[k - 1] == words(lines[i])[k]);
    assert(triangle_of(m, args[0], args[1], args[2]) is Err || triangle_of(
        m,
        args[2],
        args[3],
        args[0],
    ) is Err);
    assert(word_f()[0] != word_v()[0]);
    assert(word_f().len() != word_vn().len());
    assert(line_outcome(m, lines[i]) is Failed);
    assert(parse_prefix(lines, i + 1) is Err);
    lemma_refusal_persists(lines, i + 1, lines.len() as int);
}

/// Parsing depends on the lines alone: two parses of the same lines both
/// succeed or both fail the same way, and where they succeed they give the same
/// vertices, normals and triangles.
pub proof fn lemma_parse_repeatable(
    lines: Seq<String>,
    first: Result<ObjDocument, ObjError>,
    second: Result<ObjDocument, ObjError>,
)
    requires
        parse_reports(lines, first),
        parse_reports(lines, second),
    ensures
        first is Ok <==> second is Ok,
        first is Ok ==> first->Ok_0@ == second->Ok_0@,
        first matches Err(ObjError::Line { problem, line_number, .. }) ==> (second matches Err(
            ObjError::Line { problem: p2, line_number: n2, .. },
        ) && p2 == problem && n2 == line_number),
{
}

enum LineParseResult {
    Error(LineProblem),
    Parsed,
    Skipped,
}

/// Builds an `ObjDocument` one line at a time.
pub struct ObjParser {
    document: ObjDocument,
}

impl ObjParser {
    fn new() -> (r: Self)
        ensures
            r.document@ == empty_model(),
    {
        let r = ObjParser {
            document: ObjDocument { vertices: Vec::new(), normals: Vec::new(), triangles: Vec::new() },
        };
        assert(token_lists(r.document.vertices@) =~= seq![]);
        assert(token_lists(r.document.normals@) =~= seq![]);
        assert(r.document.triangles@ =~= seq![]);
        r
    }

    /// Parses an `.obj` file given as its lines.
    pub fn parse_lines(lines: &Vec<String>) -> (r: Result<ObjDocument, ObjError>)
        ensures
            parse_reports(lines@, r),
            r matches Ok(d) ==> indices_valid(d@),
    {
        let ghost bytes = lines_bytes(lines@);
        let mut obj_parser = ObjParser::new();
        let mut parsed_lines: usize = 0;
        let mut i: usize = 0;
        while i < lines.len()
            invariant
                i <= lines@.len(),
                bytes == lines_bytes(lines@),
                parse_prefix(bytes, i as int) == Ok::<(ObjModel, nat), (int, LineProblem)>(
                    (obj_parser.document@, parsed_lines as nat),
                ),
                parsed_lines <= i,
            decreases lines@.len() - i,
        {
            let line: &str = lines[i].as_str();
            let line_bytes: &[u8] = line.as_bytes();
            assert(line_bytes@ == bytes[i as int]);
            match obj_parser.handle_line(line_bytes) {
                LineParseResult::Error(problem) => {
                    proof {
                        lemma_refusal_persists(bytes, i + 1, lines@.len() as int);
                    }
                    return Err(
                        ObjError::Line { problem, line_number: i + 1, line: lines[i].clone() },
                    );
                },
                LineParseResult::Parsed => {
                    parsed_lines = parsed_lines + 1;
                },
                LineParseResult::Skipped => {},
            }
            i = i + 1;
        }
        proof {
            lemma_parse_prefix_indices_valid(bytes, lines@.len() as int);
        }
        if parsed_lines == 0 {
            return Err(ObjError::NoObjData);
        }
        if obj_parser.document.triangles.len() == 0 {
            return Err(ObjError::NoTriangles);
        }
        Ok(obj_parser.document)
    }

    fn handle_line(&mut self, line: &[u8]) -> (r: LineParseResult)
        ensures
            match line_outcome(old(self).document@, line@) {
                LineOutcome::Parsed(m) => r is Parsed && final(self).document@ == m,
                LineOutcome::Skipped => r is Skipped && final(self).document@ == old(
                    self,
                ).document@,
                LineOutcome::Failed(p) => r == LineParseResult::Error(p),
            },
    {
        let space_separated: Vec<Vec<u8>> = split_bytes(line, SPACE, false);
        let ghost w = words(line@);
        if space_separated.len() < 2 {
            return LineParseResult::Skipped;
        }
        let command: &Vec<u8> = &space_separated[0];
        let argument_strings: &[Vec<u8>] = slice_subrange(
            space_separated.as_slice(),
            1,
            space_separated.len(),
        );
        assert(byte_strings(argument_strings@) =~= w.skip(1));
        let v: [u8; 1] = [118];
        let vn: [u8; 2] = [118, 110];
        let f: [u8; 1] = [102];
        assert(v@ =~= word_v());
        assert(vn@ =~= word_vn());
        assert(f@ =~= word_f());
        let result = if equals_word(command, v.as_slice()) {
            self.handle_v(argument_strings)
        } else if equals_word(command, vn.as_slice()) {
            self.handle_vn(argument_strings)
        } else if equals_word(command, f.as_slice()) {
            self.handle_f(argument_strings)
        } else {
            return LineParseResult::Skipped;
        };
        match result {
            Ok(()) => LineParseResult::Parsed,
            Err(problem) => LineParseResult::Error(problem),
        }
    }

    /// Reads three numeric tokens.
    fn number_tokens(argument_strings: &[Vec<u8>], problem: LineProblem) -> (r: Result<
        NumberTokens,
        LineProblem,
    >)
        requires
            argument_strings@.len() == 3,
        ensures
            three_numbers(byte_strings(argument_strings@)) ==> (r matches Ok(t) && t@
                =~= byte_strings(argument_strings@)),
            !three_numbers(byte_strings(argument_strings@)) ==> r == Err::<NumberTokens, LineProblem>(problem),
    {
        if check_float_literal(argument_strings[0].as_slice()) && check_float_literal(
            argument_strings[1].as_slice(),
        ) && check_float_literal(argument_strings[2].as_slice()) {
            let x = copy_bytes(&argument_strings[0]);
            let y = copy_bytes(&argument_strings[1]);
            let z = copy_bytes(&argument_strings[2]);
            Ok(NumberTokens { x, y, z })
        } else {
            Err(problem)
        }
    }

    fn handle_v(&mut self, argument_strings: &[Vec<u8>]) -> (r: Result<(), LineProblem>)
        ensures
            match vertex_line(old(self).document@, byte_strings(argument_strings@)) {
                LineOutcome::Parsed(m) => r is Ok && final(self).document@ == m,
                LineOutcome::Failed(p) => r == Err::<(), LineProblem>(p),
                LineOutcome::Skipped => false,
            },
    {
        if argument_strings.len() != 3 {
            return Err(LineProblem::VertexArity);
        }
        match ObjParser::number_tokens(argument_strings, LineProblem::VertexNumber) {
            Err(problem) => Err(problem),
            Ok(tokens) => {
                let ghost before = self.document@;
                self.document.vertices.push(tokens);
                assert(self.document@.vertices =~= before.vertices.push(
                    byte_strings(argument_strings@),
                ));
                Ok(())
            },
        }
    }

    fn handle_vn(&mut self, argument_strings: &[Vec<u8>]) -> (r: Result<(), LineProblem>)
        ensures
            match normal_line(old(self).document@, byte_strings(argument_strings@)) {
                LineOutcome::Parsed(m) => r is Ok && final(self).document@ == m,
                LineOutcome::Failed(p) => r == Err::<(), LineProblem>(p),
                LineOutcome::Skipped => false,
            },
    {
        if argument_strings.len() != 3 {
            return Err(LineProblem::NormalArity);
        }
        match ObjParser::number_tokens(argument_strings, LineProblem::NormalNumber) {
            Err(problem) => Err(problem),
            Ok(tokens) => {
                let ghost before = self.document@;
                self.document.normals.push(tokens);
                assert(self.document@.normals =~= before.normals.push(
                    byte_strings(argument_strings@),
                ));
                Ok(())
            },
        }
    }

    fn handle_f(&mut self, argument_strings: &[Vec<u8>]) -> (r: Result<(), LineProblem>)
        ensures
            match face_line(old(self).document@, byte_strings(argument_strings@)) {
                LineOutcome::Parsed(m) => r is Ok && final(self).document@ == m,
                LineOutcome::Failed(p) => r == Err::<(), LineProblem>(p),
                LineOutcome::Skipped => false,
            },
    {
        let ghost before = self.document@;
        if argument_strings.len() > 4 {
            return Err(LineProblem::TooManyFaceVertices);
        }
        if argument_strings.len() < 3 {
            return Err(LineProblem::TooFewFaceVertices);
        }
        let first = match self.handle_triangle_face(
            &argument_strings[0],
            &argument_strings[1],
            &argument_strings[2],
        ) {
            Err(problem) => return Err(problem),
            Ok(t) => t,
        };
        if argument_strings.len() == 4 {
            let second = match self.handle_triangle_face(
                &argument_strings[2],
                &argument_strings[3],
                &argument_strings[0],
            ) {
                Err(problem) => return Err(problem),
                Ok(t) => t,
            };
            self.document.triangles.push(first);
            self.document.triangles.push(second);
        } else {
            self.document.triangles.push(first);
        }
        Ok(())
    }

    /// The triangle of three face elements, checked against the vertices and
    /// normals declared so far.
    fn handle_triangle_face(&self, a: &Vec<u8>, b: &Vec<u8>, c: &Vec<u8>) -> (r: Result<
        FaceTriangle,
        LineProblem,
    >)
        ensures
            r == triangle_of(self.document@, a@, b@, c@),
    {
        let ea = parse_face_element_vertex_string(a.as_slice());
        let eb = parse_face_element_vertex_string(b.as_slice());
        let ec = parse_face_element_vertex_string(c.as_slice());
        let nv = self.document.vertices.len();
        let nn = self.document.normals.len();
        let (va, vb, vc) = match (ea[0], eb[0], ec[0]) {
            (Some(va), Some(vb), Some(vc)) => (va, vb, vc),
            _ => return Err(LineProblem::MissingVertexIndex),
        };
        if va == 0 || va > nv || vb == 0 || vb > nv || vc == 0 || vc > nv {
            return Err(LineProblem::VertexIndexOutOfRange);
        }
        if index_out_of_range(ea[2], nn) || index_out_of_range(eb[2], nn) || index_out_of_range(
            ec[2],
            nn,
        ) {
            return Err(LineProblem::NormalIndexOutOfRange);
        }
        let normals = match (ea[2], eb[2], ec[2]) {
            (Some(na), Some(nb), Some(nc)) => Some(NormalIndices { n1: na - 1, n2: nb - 1, n3: nc - 1 }),
            (None, None, None) => None,
            _ => return Err(LineProblem::MixedVertexNormals),
        };
        Ok(FaceTriangle { p1: va - 1, p2: vb - 1, p3: vc - 1, normals })
    }
}

/// `t` with each vertex position replaced by the stored position that
/// addition resolved to in a pool (see `UniqueList::added`).
pub open spec fn pooled(t: FaceTriangle, added: Seq<usize>) -> FaceTriangle {
    FaceTriangle {
        p1: added[t.p1 as int],
        p2: added[t.p2 as int],
        p3: added[t.p3 as int],
        normals: t.normals,
    }
}

/// The triangle's vertices are among the first `count` additions.
pub open spec fn vertices_added(t: FaceTriangle, count: int) -> bool {
    t.p1 < count && t.p2 < count && t.p3 < count
}

/// The triangles with their vertex positions moved into `pool`, where the
/// vertices were added in the order of the file; `None` where a triangle names a
/// vertex that was never added.
pub fn pooled_triangles<T>(triangles: &Vec<FaceTriangle>, pool: &UniqueList<T>) -> (r: Option<
    Vec<FaceTriangle>,
>)
    ensures
        r is Some <==> forall|i: int|
            0 <= i < triangles@.len() ==> vertices_added(#[trigger] triangles@[i], pool.added().len() as int),
        r matches Some(v) ==> v@ == triangles@.map_values(|t: FaceTriangle| pooled(t, pool.added())),
{
    let count = pool.added_count();
    let mut out: Vec<FaceTriangle> = Vec::new();
    let mut i: usize = 0;
    while i < triangles.len()
        invariant
            i <= triangles@.len(),
            count == pool.added().len(),
            out@ == triangles@.take(i as int).map_values(|t: FaceTriangle| pooled(t, pool.added())),
            forall|k: int| 0 <= k < i ==> vertices_added(#[trigger] triangles@[k], count as int),
        decreases triangles@.len() - i,
    {
        let t = triangles[i];
        if t.p1 >= count || t.p2 >= count || t.p3 >= count {
            return None;
        }
        out.push(
            FaceTriangle {
                p1: pool.stored_index(t.p1),
                p2: pool.stored_index(t.p2),
                p3: pool.stored_index(t.p3),
                normals: t.normals,
            },
        );
        i = i + 1;
        assert(out@ =~= triangles@.take(i as int).map_values(|t: FaceTriangle| pooled(t, pool.added())));
    }
    assert(triangles@.take(triangles@.len() as int) =~= triangles@);
    Some(out)
}

fn index_out_of_range(n: Option<usize>, count: usize) -> (r: bool)
    ensures
        r == out_of_range(n, count as int),
{
    match n {
        Some(k) => k == 0 || k > count,
        None => false,
    }
}

fn copy_bytes(v: &Vec<u8>) -> (r: Vec<u8>)
    ensures
        r@ == v@,
{
    let mut r: Vec<u8> = Vec::new();
    let mut i: usize = 0;
    while i < v.len()
        invariant
            i <= v@.len(),
            r@ == v@.take(i as int),
        decreases v@.len() - i,
    {
        r.push(v[i]);
        i = i + 1;
        assert(r@ =~= v@.take(i as int));
    }
    assert(v@.take(v@.len() as int) =~= v@);
    r
}

/// Whether all elements equal the first one; `None` for no elements. What
/// "equal" means is the element type's `==`, where the type states it.
pub fn all_equal<T: PartialEq>(elements: &[T]) -> (r: Option<bool>)
    ensures
        r is None <==> elements@.len() == 0,
        T::obeys_eq_spec() && elements@.len() > 0 ==> r == Some(
            forall|i: int| 0 <= i < elements@.len() ==> #[trigger] elements@[i].eq_spec(&elements@[0]),
        ),
{
    if elements.len() == 0 {
        return None;
    }
    let first = &elements[0];
    let mut i: usize = 0;
    while i < elements.len()
        invariant
            i <= elements@.len(),
            elements@.len() > 0,
            *first == elements@[0],
            T::obeys_eq_spec() ==> forall|k: int| 0 <= k < i ==> #[trigger] elements@[k].eq_spec(&elements@[0]),
        decreases elements@.len() - i,
    {
        if !(elements[i] == *first) {
            return Some(false);
        }
        i = i + 1;
    }
    Some(true)
}

} // verus!
