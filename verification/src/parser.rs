//! Reading a whole document.

use crate::error::{note_views, FaceTooLarge, Failure, Oversize, ParseError};
use crate::laws::{
    is_ignored, lemma_face_statement, lemma_segment_statement, lemma_statement_sound,
};
use crate::mesh::{Mesh, MeshSpec};
use crate::statement::{
    apply_statement, face_statement, is_keyword, oversize_of, read_statement, references_kept,
    segment_statement,
};
use crate::text::{chars_of, lines_of, split_lines, texts, tokens_of};
use vstd::prelude::*;

verus! {

/// The number of references that an `f` statement keeps where the caller
/// names no other.
pub const DEFAULT_FACE_CAP: usize = 30;

/// The mesh of an accepted document, and the notes on its statements.
#[derive(Debug, PartialEq, Eq)]
pub struct Parsed {
    pub mesh: Mesh,
    /// One note for each `f` statement that was cut short, in the order of
    /// the lines.
    pub notes: Vec<FaceTooLarge>,
}

/// The mesh after the first `n` of `lines`, read in order from the empty
/// mesh, or the failure of the first statement among them that is refused.
/// Lines are numbered from one.
pub open spec fn parse_prefix(lines: Seq<Seq<char>>, n: nat, cap: nat) -> Result<MeshSpec, Failure>
    decreases n,
{
    if n == 0 {
        Ok(MeshSpec::empty())
    } else {
        match parse_prefix(lines, (n - 1) as nat, cap) {
            Ok(mesh) => apply_statement(mesh, n, tokens_of(lines[n - 1]), cap),
            Err(failure) => Err(failure),
        }
    }
}

/// The mesh that a document describes, or the failure of its first statement
/// that is refused. A refused document gives no mesh at all.
pub open spec fn parse_document(doc: Seq<char>, cap: nat) -> Result<MeshSpec, Failure> {
    parse_prefix(lines_of(doc), lines_of(doc).len(), cap)
}

/// The notes on the first `n` of `lines`, in the order of the lines.
pub open spec fn notes_prefix(lines: Seq<Seq<char>>, n: nat, cap: nat) -> Seq<Oversize>
    decreases n,
{
    if n == 0 {
        Seq::empty()
    } else {
        let before = notes_prefix(lines, (n - 1) as nat, cap);
        match oversize_of(n, tokens_of(lines[n - 1]), cap) {
            Some(note) => before.push(note),
            None => before,
        }
    }
}

/// The notes on an accepted document.
pub open spec fn notes_of(doc: Seq<char>, cap: nat) -> Seq<Oversize> {
    notes_prefix(lines_of(doc), lines_of(doc).len(), cap)
}

/// Once a line is refused, reading further lines changes nothing: the
/// failure of a prefix is the failure of every longer prefix.
pub proof fn lemma_failure_stays(lines: Seq<Seq<char>>, n: nat, m: nat, cap: nat)
    requires
        n <= m,
        parse_prefix(lines, n, cap) is Err,
    ensures
        parse_prefix(lines, m, cap) == parse_prefix(lines, n, cap),
    decreases m,
{
    if n < m {
        lemma_failure_stays(lines, n, (m - 1) as nat, cap);
    }
}

/// Lines of which none is a statement give the empty mesh.
pub proof fn lemma_ignored_lines(lines: Seq<Seq<char>>, n: nat, cap: nat)
    requires
        n <= lines.len(),
        forall|k: int| 0 <= k < n ==> is_ignored(tokens_of(#[trigger] lines[k])),
    ensures
        parse_prefix(lines, n, cap) == Ok::<MeshSpec, Failure>(MeshSpec::empty()),
    decreases n,
{
    if n > 0 {
        lemma_ignored_lines(lines, (n - 1) as nat, cap);
        assert(is_ignored(tokens_of(lines[n - 1])));
    }
}

/// The mesh of accepted lines is sound: every coordinate is a floating-point
/// literal, and every index refers to a vertex. Where a line is refused, the
/// failure names a line among those read.
pub proof fn lemma_parse_sound(lines: Seq<Seq<char>>, n: nat, cap: nat)
    ensures
        parse_prefix(lines, n, cap) matches Ok(mesh) ==> mesh.is_sound(),
        parse_prefix(lines, n, cap) matches Err(failure) ==> 1 <= failure.line() <= n,
    decreases n,
{
    if n > 0 {
        lemma_parse_sound(lines, (n - 1) as nat, cap);
        match parse_prefix(lines, (n - 1) as nat, cap) {
            Ok(mesh) => {
                lemma_statement_sound(mesh, n, tokens_of(lines[n - 1]), cap);
            },
            Err(_) => {},
        }
    }
}

/// Reading is append-only: where `n` lines are accepted, so are the first
/// `m` of them, and the mesh after `n` lines holds the mesh after `m`.
pub proof fn lemma_parse_extends(lines: Seq<Seq<char>>, m: nat, n: nat, cap: nat)
    requires
        m <= n,
        parse_prefix(lines, n, cap) is Ok,
    ensures
        parse_prefix(lines, m, cap) is Ok,
        parse_prefix(lines, n, cap)->Ok_0.extends(parse_prefix(lines, m, cap)->Ok_0),
    decreases n,
{
    if m < n {
        lemma_parse_extends(lines, m, (n - 1) as nat, cap);
        lemma_parse_sound(lines, (n - 1) as nat, cap);
        let before = parse_prefix(lines, (n - 1) as nat, cap)->Ok_0;
        lemma_statement_sound(before, n, tokens_of(lines[n - 1]), cap);
    }
}

/// A failure names the line that is refused: the lines before it are
/// accepted, and the failure is that of the statement on this line, read
/// into the mesh of the lines before.
pub proof fn lemma_failure_line(lines: Seq<Seq<char>>, n: nat, cap: nat)
    requires
        parse_prefix(lines, n, cap) is Err,
    ensures
        ({
            let failure = parse_prefix(lines, n, cap)->Err_0;
            let line = failure.line();
            &&& 1 <= line <= n
            &&& parse_prefix(lines, (line - 1) as nat, cap) matches Ok(before)
            &&& apply_statement(before, line, tokens_of(lines[line - 1]), cap) == Err::<
                MeshSpec,
                Failure,
            >(failure)
        }),
    decreases n,
{
    lemma_parse_sound(lines, n, cap);
    match parse_prefix(lines, (n - 1) as nat, cap) {
        Ok(before) => {
            lemma_parse_sound(lines, (n - 1) as nat, cap);
            lemma_statement_sound(before, n, tokens_of(lines[n - 1]), cap);
        },
        Err(_) => {
            lemma_failure_line(lines, (n - 1) as nat, cap);
        },
    }
}

/// What each accepted line adds: a `v` statement one vertex and no index,
/// an `l` statement two indices, an `f` statement three indices for each
/// reference kept but two, and any other line nothing. The indices that a
/// line adds refer to vertices declared on the lines before it.
pub proof fn lemma_line_adds(lines: Seq<Seq<char>>, n: nat, cap: nat)
    requires
        1 <= n,
        parse_prefix(lines, n, cap) is Ok,
    ensures
        parse_prefix(lines, (n - 1) as nat, cap) is Ok,
        ({
            let before = parse_prefix(lines, (n - 1) as nat, cap)->Ok_0;
            let after = parse_prefix(lines, n, cap)->Ok_0;
            let tokens = tokens_of(lines[n - 1]);
            let kept = references_kept(tokens, cap);
            let triangles = if kept >= 3 {
                kept - 2
            } else {
                0
            };
            &&& after.extends(before)
            &&& forall|j: int|
                before.indices.len() <= j < after.indices.len() ==> #[trigger] after.indices[j]
                    < before.vertices.len()
            &&& if is_ignored(tokens) {
                after == before
            } else if is_keyword(tokens[0], 'v') {
                &&& after.vertices.len() == before.vertices.len() + 1
                &&& after.indices == before.indices
            } else if is_keyword(tokens[0], 'l') {
                &&& after.vertices == before.vertices
                &&& after.indices.len() == before.indices.len() + 2
            } else {
                &&& after.vertices == before.vertices
                &&& after.indices.len() == before.indices.len() + 3 * triangles
            }
        }),
{
    let before = parse_prefix(lines, (n - 1) as nat, cap)->Ok_0;
    let after = parse_prefix(lines, n, cap)->Ok_0;
    let tokens = tokens_of(lines[n - 1]);
    let declared = before.vertices.len();
    lemma_segment_statement(declared, n, tokens);
    lemma_face_statement(declared, n, tokens, cap);
    assert forall|j: int| before.indices.len() <= j < after.indices.len() implies
        #[trigger] after.indices[j] < declared by {
        let k = j - before.indices.len();
        if is_keyword(tokens[0], 'l') {
            let more = segment_statement(declared, n, tokens)->Ok_0;
            assert(after.indices[j] == more[k]);
        } else {
            let more = face_statement(declared, n, tokens, cap)->Ok_0;
            assert(after.indices[j] == more[k]);
        }
    }
}

/// Reads a document, keeping `cap` references of each `f` statement at most.
/// The result is the mesh that the document describes, with a note for each
/// `f` statement that was cut short, or the error of the first statement that
/// is refused.
pub fn parse_obj(obj: &str, cap: usize) -> (r: Result<Parsed, ParseError>)
    ensures
        match parse_document(obj@, cap as nat) {
            Ok(mesh) => {
                &&& r matches Ok(parsed)
                &&& parsed.mesh@ == mesh
                &&& note_views(parsed.notes@) == notes_of(obj@, cap as nat)
            },
            Err(failure) => r matches Err(e) && e@ == failure,
        },
        r matches Ok(parsed) ==> parsed.mesh@.is_sound(),
        r matches Err(e) ==> 1 <= e@.line() <= lines_of(obj@).len(),
{
    proof {
        lemma_parse_sound(lines_of(obj@), lines_of(obj@).len(), cap as nat);
    }
    let chars = chars_of(obj);
    let lines = split_lines(chars.as_slice());
    let ghost all = lines_of(obj@);
    let mut mesh = Mesh::new();
    let mut notes: Vec<FaceTooLarge> = Vec::new();
    let mut n: usize = 0;
    assert(note_views(notes@) =~= notes_prefix(all, 0, cap as nat));
    while n < lines.len()
        invariant
            n <= lines@.len(),
            all == lines_of(obj@),
            all == texts(lines@),
            parse_prefix(all, n as nat, cap as nat) == Ok::<MeshSpec, Failure>(mesh@),
            note_views(notes@) == notes_prefix(all, n as nat, cap as nat),
        decreases lines@.len() - n,
    {
        assert(all[n as int] == lines@[n as int]@);
        match read_statement(&mut mesh, n + 1, lines[n], cap) {
            Ok(note) => {
                let ghost before = notes@;
                match note {
                    Some(note) => {
                        notes.push(note);
                        assert(note_views(notes@) =~= note_views(before).push(note@));
                    },
                    None => {},
                }
            },
            Err(e) => {
                proof {
                    lemma_failure_stays(all, (n + 1) as nat, all.len(), cap as nat);
                }
                return Err(e);
            },
        }
        n += 1;
    }
    Ok(Parsed { mesh, notes })
}

/// Reads a document into a mesh, keeping thirty references of each `f`
/// statement at most.
pub fn obj_lines_to_mesh(obj: &str) -> (r: Result<Mesh, ParseError>)
    ensures
        match parse_document(obj@, DEFAULT_FACE_CAP as nat) {
            Ok(mesh) => r matches Ok(m) && m@ == mesh,
            Err(failure) => r matches Err(e) && e@ == failure,
        },
        r matches Ok(m) ==> m@.is_sound(),
        r matches Err(e) ==> 1 <= e@.line() <= lines_of(obj@).len(),
{
    match parse_obj(obj, DEFAULT_FACE_CAP) {
        Ok(parsed) => Ok(parsed.mesh),
        Err(e) => Err(e),
    }
}

} // verus!
