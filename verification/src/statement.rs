//! What one statement does to a mesh.
//!
//! A statement is the sequence of the tokens of one line. Its first token is
//! its keyword: `v` declares a vertex, `l` a line segment, `f` a polygon. A
//! line with another first token, or with none, is no statement and leaves
//! the mesh as it is.

use crate::error::{note_view, FaceTooLarge, Failure, Oversize, ParseError};
use crate::fan::{fan, push_fan};
use crate::mesh::{Mesh, MeshSpec, Numeral, Vertex, VertexSpec};
use crate::number::{is_float_literal, parse_u32, u32_value};
use crate::text::{pieces_of, split, string_of, texts, tokenize, tokens_of};
use vstd::prelude::*;

verus! {

/// Whether a token is the one-letter keyword `letter`.
pub open spec fn is_keyword(token: Seq<char>, letter: char) -> bool {
    token.len() == 1 && token[0] == letter
}

/// The place of the first token among `tokens[1]`, ..., `tokens[upto]` that
/// `accepts` does not hold of, if there is one.
pub open spec fn first_rejected(
    tokens: Seq<Seq<char>>,
    upto: int,
    accepts: spec_fn(Seq<char>) -> bool,
) -> Option<int>
    decreases upto,
{
    if upto <= 0 {
        None
    } else {
        match first_rejected(tokens, upto - 1, accepts) {
            Some(k) => Some(k),
            None => if accepts(tokens[upto]) {
                None
            } else {
                Some(upto)
            },
        }
    }
}

/// `first_rejected` finds nothing exactly where every token in its range is
/// accepted, and else finds the first one that is not.
pub proof fn lemma_first_rejected(
    tokens: Seq<Seq<char>>,
    upto: int,
    accepts: spec_fn(Seq<char>) -> bool,
)
    ensures
        first_rejected(tokens, upto, accepts) is None <==> forall|k: int|
            1 <= k <= upto ==> accepts(#[trigger] tokens[k]),
        first_rejected(tokens, upto, accepts) matches Some(j) ==> {
            &&& 1 <= j <= upto
            &&& !accepts(tokens[j])
            &&& forall|k: int| 1 <= k < j ==> accepts(#[trigger] tokens[k])
        },
    decreases upto,
{
    if upto > 0 {
        lemma_first_rejected(tokens, upto - 1, accepts);
    }
}

/// Where all tokens before place `j` are accepted and the one at `j` is not,
/// `first_rejected` finds `j` in every range that reaches it.
pub proof fn lemma_first_rejected_at(
    tokens: Seq<Seq<char>>,
    upto: int,
    accepts: spec_fn(Seq<char>) -> bool,
    j: int,
)
    requires
        1 <= j <= upto,
        !accepts(tokens[j]),
        forall|k: int| 1 <= k < j ==> accepts(#[trigger] tokens[k]),
    ensures
        first_rejected(tokens, upto, accepts) == Some(j),
    decreases upto,
{
    lemma_first_rejected(tokens, upto - 1, accepts);
    if j < upto {
        lemma_first_rejected_at(tokens, upto - 1, accepts, j);
    }
}

/// The coordinate that stands at place `k` of a vertex where the statement
/// gives none: `0` in the position, `1` in the auxiliary vector.
pub open spec fn default_coordinate(k: int) -> Seq<char> {
    if k < 3 {
        seq!['0']
    } else {
        seq!['1']
    }
}

/// The coordinate at place `k` of the vertex that a `v` statement declares,
/// where the places 0, 1, 2 are the position and 3, 4, 5 the auxiliary
/// vector: the token after the keyword and `k` more tokens, or the default
/// where the statement is too short.
pub open spec fn coordinate(tokens: Seq<Seq<char>>, k: int) -> Seq<char> {
    if k + 1 < tokens.len() {
        tokens[k + 1]
    } else {
        default_coordinate(k)
    }
}

/// The vertex that a `v` statement declares.
pub open spec fn vertex_of(tokens: Seq<Seq<char>>) -> VertexSpec {
    VertexSpec {
        pos: Seq::new(3, |k: int| coordinate(tokens, k)),
        uvw: Seq::new(3, |k: int| coordinate(tokens, 3 + k)),
    }
}

/// How many tokens of a `v` statement are read as coordinates: those after
/// the keyword, and six at most.
pub open spec fn coordinates_read(tokens: Seq<Seq<char>>) -> int {
    if tokens.len() - 1 < 6 {
        tokens.len() - 1
    } else {
        6
    }
}

/// What a `v` statement on line number `line` declares: it is refused for
/// the first of the tokens read as coordinates that is no floating-point
/// literal, and else declares its vertex.
pub open spec fn vertex_statement(line: nat, tokens: Seq<Seq<char>>) -> Result<
    VertexSpec,
    Failure,
> {
    match first_rejected(tokens, coordinates_read(tokens), |t: Seq<char>| is_float_literal(t)) {
        Some(k) => Err(Failure::MalformedNumber { line, token: tokens[k] }),
        None => Ok(vertex_of(tokens)),
    }
}

/// The index that a token refers to, where `declared` vertices have been
/// declared: the token spells an integer from 1 to `declared`, and the index
/// is one less. A token that spells no integer, spells zero, or spells more
/// than `declared`, refers to nothing.
pub open spec fn index_of(token: Seq<char>, declared: nat) -> Option<u32> {
    match u32_value(token) {
        Some(k) => if 1 <= k <= declared {
            Some((k - 1) as u32)
        } else {
            None
        },
        None => None,
    }
}

/// The indices that the tokens `tokens[1]`, ..., `tokens[count]` refer to,
/// each read by `read`.
pub open spec fn indices_read(
    tokens: Seq<Seq<char>>,
    count: int,
    read: spec_fn(Seq<char>) -> Option<u32>,
) -> Seq<u32> {
    Seq::new(count as nat, |k: int| read(tokens[k + 1])->0)
}

/// The indices that an `l` statement on line number `line` adds, where
/// `declared` vertices have been declared: with fewer than two tokens after
/// the keyword it is incomplete; it is refused for the first of these two
/// tokens that refers to no declared vertex; and else it adds the two
/// indices. Further tokens are not read.
pub open spec fn segment_statement(declared: nat, line: nat, tokens: Seq<Seq<char>>) -> Result<
    Seq<u32>,
    Failure,
> {
    let read = |t: Seq<char>| index_of(t, declared);
    if tokens.len() < 3 {
        Err(Failure::IncompleteStatement { line })
    } else {
        match first_rejected(tokens, 2, |t: Seq<char>| read(t) is Some) {
            Some(k) => Err(Failure::MalformedIndex { line, token: tokens[k] }),
            None => Ok(indices_read(tokens, 2, read)),
        }
    }
}

/// The fields of a token: the pieces into which its slashes cut it.
pub open spec fn fields_of(token: Seq<char>) -> Seq<Seq<char>> {
    pieces_of(token, '/')
}

/// Whether a token is a reference of an `f` statement: its first field, the
/// vertex, spells an unsigned integer; so does the second, the texture
/// coordinate, where there is one; and so does the third, the normal, where
/// there are exactly three. Of a token with more than three fields only the
/// first two are read.
pub open spec fn is_reference(token: Seq<char>) -> bool {
    let fields = fields_of(token);
    &&& u32_value(fields[0]) is Some
    &&& fields.len() >= 2 ==> u32_value(fields[1]) is Some
    &&& fields.len() == 3 ==> u32_value(fields[2]) is Some
}

/// The index that a reference of an `f` statement refers to, where
/// `declared` vertices have been declared: that of its first field. A token
/// that is no reference refers to nothing.
pub open spec fn reference_index(token: Seq<char>, declared: nat) -> Option<u32> {
    if is_reference(token) {
        index_of(fields_of(token)[0], declared)
    } else {
        None
    }
}

/// How many references of an `f` statement are kept: those it holds, and
/// `cap` at most.
pub open spec fn references_kept(tokens: Seq<Seq<char>>, cap: nat) -> int {
    if tokens.len() - 1 < cap {
        tokens.len() - 1
    } else {
        cap as int
    }
}

/// The indices that an `f` statement on line number `line` adds, where
/// `declared` vertices have been declared and `cap` references are kept at
/// most: with fewer than three tokens after the keyword it is incomplete; it
/// is refused for the first of the references kept that refers to no
/// declared vertex; and else it adds the fan of the references kept.
/// References beyond the cap are not read.
pub open spec fn face_statement(
    declared: nat,
    line: nat,
    tokens: Seq<Seq<char>>,
    cap: nat,
) -> Result<Seq<u32>, Failure> {
    let read = |t: Seq<char>| reference_index(t, declared);
    let kept = references_kept(tokens, cap);
    if tokens.len() < 4 {
        Err(Failure::IncompleteStatement { line })
    } else {
        match first_rejected(tokens, kept, |t: Seq<char>| read(t) is Some) {
            Some(k) => Err(Failure::MalformedIndex { line, token: tokens[k] }),
            None => Ok(fan(indices_read(tokens, kept, read))),
        }
    }
}

/// What the statement on line number `line` does to a mesh. `tokens` are the
/// tokens of the line, and `cap` is the number of references that an `f`
/// statement may keep. A statement reads nothing of the mesh but the number
/// of its vertices.
pub open spec fn apply_statement(
    mesh: MeshSpec,
    line: nat,
    tokens: Seq<Seq<char>>,
    cap: nat,
) -> Result<MeshSpec, Failure> {
    if tokens.len() == 0 {
        Ok(mesh)
    } else if is_keyword(tokens[0], 'v') {
        match vertex_statement(line, tokens) {
            Ok(vertex) => Ok(mesh.with_vertex(vertex)),
            Err(failure) => Err(failure),
        }
    } else if is_keyword(tokens[0], 'l') {
        match segment_statement(mesh.vertices.len(), line, tokens) {
            Ok(more) => Ok(mesh.with_indices(more)),
            Err(failure) => Err(failure),
        }
    } else if is_keyword(tokens[0], 'f') {
        match face_statement(mesh.vertices.len(), line, tokens, cap) {
            Ok(more) => Ok(mesh.with_indices(more)),
            Err(failure) => Err(failure),
        }
    } else {
        Ok(mesh)
    }
}

/// The note that the statement on line number `line` gives rise to where it
/// is accepted: one for an `f` statement that holds more references than
/// `cap`, and none for any other.
pub open spec fn oversize_of(line: nat, tokens: Seq<Seq<char>>, cap: nat) -> Option<Oversize> {
    if tokens.len() - 1 > cap && is_keyword(tokens[0], 'f') {
        Some(Oversize { line, references: (tokens.len() - 1) as nat })
    } else {
        None
    }
}

/// Whether a token is the one-letter keyword `letter`.
fn has_keyword(token: &[char], letter: char) -> (r: bool)
    ensures
        r == is_keyword(token@, letter),
{
    token.len() == 1 && token[0] == letter
}

/// The coordinate at place `k` of the vertex that a `v` statement declares,
/// or the error of the statement where the token in this place is the first
/// that is no coordinate.
fn read_coordinate(tokens: &Vec<&[char]>, k: usize, line: usize) -> (r: Result<
    Numeral,
    ParseError,
>)
    requires
        k < 6,
        forall|j: int| 1 <= j <= k && j < tokens@.len() ==> is_float_literal(texts(tokens@)[j]),
    ensures
        match r {
            Ok(n) => {
                &&& n@ == coordinate(texts(tokens@), k as int)
                &&& k + 1 < tokens@.len() ==> is_float_literal(texts(tokens@)[k + 1])
            },
            Err(e) => vertex_statement(line as nat, texts(tokens@)) == Err::<VertexSpec, Failure>(
                e@,
            ),
        },
{
    if k + 1 < tokens.len() {
        let token: &[char] = tokens[k + 1];
        match Numeral::parse(token) {
            Some(n) => Ok(n),
            None => {
                proof {
                    let words = texts(tokens@);
                    lemma_first_rejected_at(
                        words,
                        coordinates_read(words),
                        |t: Seq<char>| is_float_literal(t),
                        k + 1,
                    );
                }
                Err(ParseError::MalformedNumber { line, token: string_of(token) })
            },
        }
    } else if k < 3 {
        Ok(Numeral::zero())
    } else {
        Ok(Numeral::one())
    }
}

/// The vertex that a `v` statement declares, or the error for the first of
/// its tokens that is no coordinate.
fn read_vertex(tokens: &Vec<&[char]>, line: usize) -> (r: Result<Vertex, ParseError>)
    ensures
        match vertex_statement(line as nat, texts(tokens@)) {
            Ok(vertex) => r matches Ok(v) && v@ == vertex,
            Err(failure) => r matches Err(e) && e@ == failure,
        },
{
    let x = read_coordinate(tokens, 0, line)?;
    let y = read_coordinate(tokens, 1, line)?;
    let z = read_coordinate(tokens, 2, line)?;
    let u = read_coordinate(tokens, 3, line)?;
    let v = read_coordinate(tokens, 4, line)?;
    let w = read_coordinate(tokens, 5, line)?;
    let vertex = Vertex { pos: [x, y, z], uvw: [u, v, w] };
    proof {
        let words = texts(tokens@);
        lemma_first_rejected(words, coordinates_read(words), |t: Seq<char>| is_float_literal(t));
        assert(vertex@.pos =~= vertex_of(words).pos);
        assert(vertex@.uvw =~= vertex_of(words).uvw);
    }
    Ok(vertex)
}

/// The index that a token refers to, where `declared` vertices have been
/// declared.
pub fn read_index(token: &[char], declared: usize) -> (r: Option<u32>)
    ensures
        r == index_of(token@, declared as nat),
{
    match parse_u32(token) {
        Some(k) => if 1 <= k && k as usize <= declared {
            Some(k - 1)
        } else {
            None
        },
        None => None,
    }
}

/// The index that a reference of an `f` statement refers to, where
/// `declared` vertices have been declared.
pub fn read_reference(token: &[char], declared: usize) -> (r: Option<u32>)
    ensures
        r == reference_index(token@, declared as nat),
{
    let fields = split(token, '/');
    let ghost words = texts(fields@);
    assert(words[0] == fields@[0]@);
    if fields.len() >= 2 {
        assert(words[1] == fields@[1]@);
        if parse_u32(fields[1]).is_none() {
            return None;
        }
    }
    if fields.len() == 3 {
        assert(words[2] == fields@[2]@);
        if parse_u32(fields[2]).is_none() {
            return None;
        }
    }
    read_index(fields[0], declared)
}

/// Appends the two indices of an `l` statement, or gives its error.
fn read_segment(tokens: &Vec<&[char]>, declared: usize, line: usize, indices: &mut Vec<u32>) -> (r:
    Result<(), ParseError>)
    ensures
        match segment_statement(declared as nat, line as nat, texts(tokens@)) {
            Ok(more) => r is Ok && final(indices)@ == old(indices)@ + more,
            Err(failure) => r matches Err(e) && e@ == failure && final(indices)@ == old(indices)@,
        },
{
    let ghost words = texts(tokens@);
    let ghost read = |t: Seq<char>| index_of(t, declared as nat);
    let ghost accepts = |t: Seq<char>| read(t) is Some;
    if tokens.len() < 3 {
        return Err(ParseError::IncompleteStatement { line });
    }
    proof {
        lemma_first_rejected(words, 2, accepts);
    }
    let a: u32 = match read_index(tokens[1], declared) {
        Some(a) => a,
        None => {
            proof {
                lemma_first_rejected_at(words, 2, accepts, 1);
            }
            return Err(ParseError::MalformedIndex { line, token: string_of(tokens[1]) });
        },
    };
    let b: u32 = match read_index(tokens[2], declared) {
        Some(b) => b,
        None => {
            proof {
                lemma_first_rejected_at(words, 2, accepts, 2);
            }
            return Err(ParseError::MalformedIndex { line, token: string_of(tokens[2]) });
        },
    };
    indices.push(a);
    indices.push(b);
    proof {
        assert(indices@ =~= old(indices)@ + indices_read(words, 2, read));
    }
    Ok(())
}

/// Appends the triangles of an `f` statement, or gives its error.
fn read_face(
    tokens: &Vec<&[char]>,
    declared: usize,
    line: usize,
    cap: usize,
    indices: &mut Vec<u32>,
) -> (r: Result<(), ParseError>)
    ensures
        match face_statement(declared as nat, line as nat, texts(tokens@), cap as nat) {
            Ok(more) => r is Ok && final(indices)@ == old(indices)@ + more,
            Err(failure) => r matches Err(e) && e@ == failure && final(indices)@ == old(indices)@,
        },
{
    let ghost words = texts(tokens@);
    let ghost read = |t: Seq<char>| reference_index(t, declared as nat);
    let ghost accepts = |t: Seq<char>| read(t) is Some;
    if tokens.len() < 4 {
        return Err(ParseError::IncompleteStatement { line });
    }
    let kept: usize = if tokens.len() - 1 < cap {
        tokens.len() - 1
    } else {
        cap
    };
    let mut corners: Vec<u32> = Vec::new();
    let mut k: usize = 0;
    while k < kept
        invariant
            k <= kept < tokens@.len(),
            tokens@.len() >= 4,
            words == texts(tokens@),
            kept == references_kept(words, cap as nat),
            indices@ == old(indices)@,
            corners@ == indices_read(
                words,
                k as int,
                |t: Seq<char>| reference_index(t, declared as nat),
            ),
            forall|j: int|
                1 <= j <= k ==> reference_index(#[trigger] words[j], declared as nat) is Some,
        decreases kept - k,
    {
        let ghost read = |t: Seq<char>| reference_index(t, declared as nat);
        let ghost accepts = |t: Seq<char>| read(t) is Some;
        match read_reference(tokens[k + 1], declared) {
            Some(corner) => {
                corners.push(corner);
                assert(corners@ =~= indices_read(words, k + 1, read));
            },
            None => {
                proof {
                    lemma_first_rejected_at(words, kept as int, accepts, k + 1);
                }
                return Err(ParseError::MalformedIndex { line, token: string_of(tokens[k + 1]) });
            },
        }
        k += 1;
    }
    proof {
        lemma_first_rejected(words, kept as int, accepts);
    }
    push_fan(corners.as_slice(), indices);
    Ok(())
}

/// Reads the line number `line_no` into a mesh: the mesh changes as the
/// statement on the line says, or stays as it is where the statement is
/// refused. An accepted `f` statement that holds more than `cap` references
/// comes with a note.
pub fn read_statement(mesh: &mut Mesh, line_no: usize, line: &[char], cap: usize) -> (r: Result<
    Option<FaceTooLarge>,
    ParseError,
>)
    ensures
        match apply_statement(old(mesh)@, line_no as nat, tokens_of(line@), cap as nat) {
            Ok(next) => {
                &&& final(mesh)@ == next
                &&& r matches Ok(note)
                &&& note_view(note) == oversize_of(line_no as nat, tokens_of(line@), cap as nat)
            },
            Err(failure) => {
                &&& final(mesh)@ == old(mesh)@
                &&& r matches Err(e)
                &&& e@ == failure
            },
        },
{
    let tokens = tokenize(line);
    let ghost words = texts(tokens@);
    if tokens.len() == 0 {
        return Ok(None);
    }
    assert(words[0] == tokens@[0]@);
    let keyword: &[char] = tokens[0];
    if has_keyword(keyword, 'v') {
        match read_vertex(&tokens, line_no) {
            Ok(vertex) => {
                mesh.vertices.push(vertex);
                assert(mesh@.vertices =~= old(mesh)@.vertices.push(vertex@));
                Ok(None)
            },
            Err(e) => Err(e),
        }
    } else if has_keyword(keyword, 'l') {
        let declared: usize = mesh.vertices.len();
        match read_segment(&tokens, declared, line_no, &mut mesh.indices) {
            Ok(()) => {
                assert(mesh@.vertices =~= old(mesh)@.vertices);
                Ok(None)
            },
            Err(e) => {
                assert(mesh@.vertices =~= old(mesh)@.vertices);
                Err(e)
            },
        }
    } else if has_keyword(keyword, 'f') {
        let declared: usize = mesh.vertices.len();
        match read_face(&tokens, declared, line_no, cap, &mut mesh.indices) {
            Ok(()) => {
                assert(mesh@.vertices =~= old(mesh)@.vertices);
                if tokens.len() - 1 > cap {
                    Ok(Some(FaceTooLarge { line: line_no, references: tokens.len() - 1 }))
                } else {
                    Ok(None)
                }
            },
            Err(e) => {
                assert(mesh@.vertices =~= old(mesh)@.vertices);
                Err(e)
            },
        }
    } else {
        Ok(None)
    }
}

} // verus!
