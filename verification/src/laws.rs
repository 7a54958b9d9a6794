//! What holds of every statement.

use crate::error::Failure;
use crate::fan::{fan, lemma_fan_anchor, lemma_fan_bound, lemma_fan_len};
use crate::mesh::MeshSpec;
use crate::number::{is_float_literal, lemma_single_digit, u32_value};
use crate::statement::{
    apply_statement, coordinate, coordinates_read, face_statement, fields_of, first_rejected,
    index_of, indices_read, is_keyword, is_reference, lemma_first_rejected, oversize_of,
    reference_index, references_kept, segment_statement, vertex_of, vertex_statement,
};
use crate::text::{lemma_first_piece, lemma_only_piece};
use vstd::prelude::*;

verus! {

/// Whether a line is no statement: it has no token, or its first token is
/// none of the keywords `v`, `l` and `f`.
pub open spec fn is_ignored(tokens: Seq<Seq<char>>) -> bool {
    tokens.len() == 0 || !(is_keyword(tokens[0], 'v') || is_keyword(tokens[0], 'l') || is_keyword(
        tokens[0],
        'f',
    ))
}

/// A line that is no statement changes nothing and fails nothing, whatever
/// the mesh and whatever else the line holds.
pub proof fn lemma_ignored_line(mesh: MeshSpec, line: nat, tokens: Seq<Seq<char>>, cap: nat)
    requires
        is_ignored(tokens),
    ensures
        apply_statement(mesh, line, tokens, cap) == Ok::<MeshSpec, Failure>(mesh),
        oversize_of(line, tokens, cap) is None,
{
}

/// An index is one less than the integer that its token spells, and no
/// token that spells zero has an index.
pub proof fn lemma_index_is_one_less(token: Seq<char>, declared: nat)
    ensures
        index_of(token, declared) matches Some(index) ==> u32_value(token) == Some(
            (index + 1) as u32,
        ) && index < declared,
        u32_value(token) == Some(0u32) ==> index_of(token, declared) is None,
        u32_value(token) matches Some(k) ==> (index_of(token, declared) is Some <==> 1 <= k
            <= declared),
{
}

/// A `v` statement is refused exactly where one of the tokens read as
/// coordinates, the first six after the keyword, is no floating-point
/// literal. The vertex of an accepted one holds these tokens as they are,
/// and the defaults in the places left: `0` in the position and `1` in the
/// auxiliary vector. Every one of its coordinates is a floating-point
/// literal.
pub proof fn lemma_vertex_statement(line: nat, tokens: Seq<Seq<char>>)
    ensures
        vertex_statement(line, tokens) is Ok <==> forall|k: int|
            1 <= k <= 6 && k < tokens.len() ==> is_float_literal(#[trigger] tokens[k]),
        vertex_statement(line, tokens) matches Ok(vertex) ==> {
            &&& vertex.is_numeric()
            &&& forall|k: int|
                0 <= k < 3 ==> #[trigger] vertex.pos[k] == if k + 1 < tokens.len() {
                    tokens[k + 1]
                } else {
                    seq!['0']
                }
            &&& forall|k: int|
                0 <= k < 3 ==> #[trigger] vertex.uvw[k] == if k + 4 < tokens.len() {
                    tokens[k + 4]
                } else {
                    seq!['1']
                }
        },
        vertex_statement(line, tokens) matches Err(failure) ==> failure.line() == line,
{
    let accepts = |t: Seq<char>| is_float_literal(t);
    let upto = coordinates_read(tokens);
    lemma_first_rejected(tokens, upto, accepts);
    if forall|k: int| 1 <= k <= 6 && k < tokens.len() ==> is_float_literal(#[trigger] tokens[k]) {
        assert forall|k: int| 1 <= k <= upto implies accepts(#[trigger] tokens[k]) by {
            assert(is_float_literal(tokens[k]));
        }
    } else if first_rejected(tokens, upto, accepts) is None {
        assert forall|k: int| 1 <= k <= 6 && k < tokens.len() implies is_float_literal(
            #[trigger] tokens[k],
        ) by {
            assert(accepts(tokens[k]));
        }
    }
    if vertex_statement(line, tokens) is Ok {
        let vertex = vertex_of(tokens);
        lemma_single_digit('0');
        lemma_single_digit('1');
        assert forall|k: int| 0 <= k < 6 implies is_float_literal(coordinate(tokens, k)) by {
            if k + 1 < tokens.len() {
                assert(accepts(tokens[k + 1]));
            }
        }
        assert forall|k: int| 0 <= k < 3 implies is_float_literal(#[trigger] vertex.pos[k]) by {
            assert(is_float_literal(coordinate(tokens, k)));
        }
        assert forall|k: int| 0 <= k < 3 implies is_float_literal(#[trigger] vertex.uvw[k]) by {
            assert(is_float_literal(coordinate(tokens, 3 + k)));
        }
    }
}

/// An `l` statement is refused exactly where it has fewer than two tokens
/// after the keyword or one of the first two refers to no declared vertex.
/// An accepted one adds exactly two indices: each is one less than the
/// integer that its token spells, and refers to a declared vertex.
pub proof fn lemma_segment_statement(declared: nat, line: nat, tokens: Seq<Seq<char>>)
    ensures
        segment_statement(declared, line, tokens) is Ok <==> tokens.len() >= 3 && index_of(
            tokens[1],
            declared,
        ) is Some && index_of(tokens[2], declared) is Some,
        segment_statement(declared, line, tokens) matches Ok(more) ==> {
            &&& more.len() == 2
            &&& forall|k: int|
                0 <= k < 2 ==> u32_value(tokens[k + 1]) == Some((#[trigger] more[k] + 1) as u32)
                    && more[k] < declared
        },
        segment_statement(declared, line, tokens) matches Err(failure) ==> failure.line() == line,
{
    let read = |t: Seq<char>| index_of(t, declared);
    let accepts = |t: Seq<char>| read(t) is Some;
    lemma_first_rejected(tokens, 2, accepts);
    if tokens.len() >= 3 {
        if index_of(tokens[1], declared) is Some && index_of(tokens[2], declared) is Some {
            assert forall|k: int| 1 <= k <= 2 implies accepts(#[trigger] tokens[k]) by {}
        } else if first_rejected(tokens, 2, accepts) is None {
            assert(accepts(tokens[1]));
            assert(accepts(tokens[2]));
        }
    }
    if segment_statement(declared, line, tokens) is Ok {
        let more = indices_read(tokens, 2, read);
        assert forall|k: int| 0 <= k < 2 implies u32_value(tokens[k + 1]) == Some(
            (#[trigger] more[k] + 1) as u32,
        ) && more[k] < declared by {
            assert(accepts(tokens[k + 1]));
            lemma_index_is_one_less(tokens[k + 1], declared);
        }
    }
}

/// A reference without a slash is read as a plain index.
pub proof fn lemma_plain_reference(token: Seq<char>, declared: nat)
    requires
        forall|k: int| 0 <= k < token.len() ==> token[k] != '/',
    ensures
        fields_of(token) == seq![token],
        reference_index(token, declared) == index_of(token, declared),
{
    lemma_only_piece(token, '/');
}

/// Of a reference with slashes, the vertex is what stands before the first
/// slash, and the other fields are those of what follows it.
pub proof fn lemma_first_field(vertex: Seq<char>, rest: Seq<char>)
    requires
        forall|k: int| 0 <= k < vertex.len() ==> vertex[k] != '/',
    ensures
        fields_of(vertex + seq!['/'] + rest) == seq![vertex] + fields_of(rest),
        fields_of(vertex + seq!['/'] + rest)[0] == vertex,
{
    lemma_first_piece(vertex, '/', rest);
}

/// The corners of an accepted `f` statement: the indices that the
/// references kept refer to, in the order of the references.
pub open spec fn corners_of(declared: nat, tokens: Seq<Seq<char>>, cap: nat) -> Seq<u32> {
    indices_read(tokens, references_kept(tokens, cap), |t: Seq<char>| reference_index(t, declared))
}

/// An `f` statement is refused exactly where it has fewer than three tokens
/// after the keyword or one of the references kept refers to no declared
/// vertex. An accepted one adds the fan of its corners: three indices for
/// each triangle, `3 * (n - 2)` in all for `n` references kept, `n` at
/// least three, and every one of them refers to a declared vertex. Each
/// corner is one less than the integer that the first field of its token
/// spells.
pub proof fn lemma_face_statement(declared: nat, line: nat, tokens: Seq<Seq<char>>, cap: nat)
    ensures
        face_statement(declared, line, tokens, cap) is Ok <==> tokens.len() >= 4 && forall|k: int|
            1 <= k <= references_kept(tokens, cap) ==> reference_index(
                #[trigger] tokens[k],
                declared,
            ) is Some,
        face_statement(declared, line, tokens, cap) matches Ok(more) ==> {
            let kept = references_kept(tokens, cap);
            let corners = corners_of(declared, tokens, cap);
            &&& more == fan(corners)
            &&& corners.len() == kept
            &&& more.len() == if kept >= 3 {
                3 * (kept - 2)
            } else {
                0
            }
            &&& forall|j: int| 0 <= j < more.len() ==> #[trigger] more[j] < declared
            &&& forall|k: int|
                0 <= k < kept ==> is_reference(tokens[k + 1]) && u32_value(
                    fields_of(tokens[k + 1])[0],
                ) == Some((#[trigger] corners[k] + 1) as u32)
        },
        face_statement(declared, line, tokens, cap) matches Err(failure) ==> failure.line() == line,
{
    let read = |t: Seq<char>| reference_index(t, declared);
    let accepts = |t: Seq<char>| read(t) is Some;
    let kept = references_kept(tokens, cap);
    lemma_first_rejected(tokens, kept, accepts);
    if tokens.len() >= 4 {
        if forall|k: int|
            1 <= k <= kept ==> reference_index(#[trigger] tokens[k], declared) is Some {
            assert forall|k: int| 1 <= k <= kept implies accepts(#[trigger] tokens[k]) by {
                assert(reference_index(tokens[k], declared) is Some);
            }
        } else if first_rejected(tokens, kept, accepts) is None {
            assert forall|k: int| 1 <= k <= kept implies reference_index(
                #[trigger] tokens[k],
                declared,
            ) is Some by {
                assert(accepts(tokens[k]));
            }
        }
    }
    if face_statement(declared, line, tokens, cap) is Ok {
        let corners = corners_of(declared, tokens, cap);
        assert forall|k: int| 0 <= k < kept implies is_reference(tokens[k + 1]) && u32_value(
            fields_of(tokens[k + 1])[0],
        ) == Some((#[trigger] corners[k] + 1) as u32) && corners[k] < declared by {
            assert(accepts(tokens[k + 1]));
            lemma_index_is_one_less(fields_of(tokens[k + 1])[0], declared);
        }
        lemma_fan_len(corners);
        lemma_fan_bound(corners, declared as int);
    }
}

/// The triangles of an accepted `f` statement all start at its first
/// corner: triangle number `t`, counted from zero, is made of the corners
/// 0, `t + 1` and `t + 2`, in this order.
pub proof fn lemma_face_triangle(
    declared: nat,
    line: nat,
    tokens: Seq<Seq<char>>,
    cap: nat,
    t: int,
)
    requires
        face_statement(declared, line, tokens, cap) is Ok,
        0 <= t < references_kept(tokens, cap) - 2,
    ensures
        face_statement(declared, line, tokens, cap) matches Ok(more) && {
            let corners = corners_of(declared, tokens, cap);
            &&& more.subrange(3 * t, 3 * t + 3) == seq![corners[0], corners[t + 1], corners[t + 2]]
            &&& more[3 * t] == corners[0]
            &&& more[3 * t + 1] == corners[t + 1]
            &&& more[3 * t + 2] == corners[t + 2]
        },
{
    lemma_face_statement(declared, line, tokens, cap);
    lemma_fan_anchor(corners_of(declared, tokens, cap), t);
}

/// An `f` statement that keeps all its references, three or more, adds
/// three indices for each reference but two.
pub proof fn lemma_face_index_count(declared: nat, line: nat, tokens: Seq<Seq<char>>, cap: nat)
    requires
        face_statement(declared, line, tokens, cap) is Ok,
        tokens.len() - 1 <= cap,
    ensures
        face_statement(declared, line, tokens, cap) matches Ok(more) && more.len() == 3 * (
        tokens.len() - 3),
{
    lemma_face_statement(declared, line, tokens, cap);
}

/// A reference to vertex zero is refused: an `l` or `f` statement that is
/// long enough and holds, among the tokens it reads, one that spells zero
/// in the place of the vertex, fails with a malformed index on its line.
pub proof fn lemma_zero_is_refused(
    mesh: MeshSpec,
    line: nat,
    tokens: Seq<Seq<char>>,
    cap: nat,
    k: int,
)
    requires
        ({
            &&& is_keyword(tokens[0], 'l')
            &&& tokens.len() >= 3
            &&& 1 <= k <= 2
            &&& u32_value(tokens[k]) == Some(0u32)
        }) || ({
            &&& is_keyword(tokens[0], 'f')
            &&& tokens.len() >= 4
            &&& 1 <= k <= references_kept(tokens, cap)
            &&& u32_value(fields_of(tokens[k])[0]) == Some(0u32)
        }),
    ensures
        apply_statement(mesh, line, tokens, cap) matches Err(
            Failure::MalformedIndex { line: l, .. },
        ) && l == line,
{
    let declared = mesh.vertices.len();
    if is_keyword(tokens[0], 'l') {
        let read = |t: Seq<char>| index_of(t, declared);
        let accepts = |t: Seq<char>| read(t) is Some;
        lemma_first_rejected(tokens, 2, accepts);
        assert(!accepts(tokens[k]));
    } else {
        let read = |t: Seq<char>| reference_index(t, declared);
        let accepts = |t: Seq<char>| read(t) is Some;
        lemma_first_rejected(tokens, references_kept(tokens, cap), accepts);
        assert(!accepts(tokens[k]));
    }
}

/// A statement keeps a sound mesh sound and takes nothing from it: what the
/// mesh held is still there, and a statement that is refused names its own
/// line.
pub proof fn lemma_statement_sound(mesh: MeshSpec, line: nat, tokens: Seq<Seq<char>>, cap: nat)
    requires
        mesh.is_sound(),
    ensures
        apply_statement(mesh, line, tokens, cap) matches Ok(next) ==> next.is_sound()
            && next.extends(mesh),
        apply_statement(mesh, line, tokens, cap) matches Err(failure) ==> failure.line() == line,
{
    let declared = mesh.vertices.len();
    if tokens.len() > 0 {
        if is_keyword(tokens[0], 'v') {
            lemma_vertex_statement(line, tokens);
        } else if is_keyword(tokens[0], 'l') {
            lemma_segment_statement(declared, line, tokens);
        } else if is_keyword(tokens[0], 'f') {
            lemma_face_statement(declared, line, tokens, cap);
        }
    }
}

} // verus!
