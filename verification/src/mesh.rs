//! Mesh decoding and mesh lifecycle.
//!
//! A mesh asset is OBJ text. Decoding happens in two steps: the outside
//! parser turns the text into per-model coordinate arrays (trusted, named by
//! [`obj_parse`]), and verified code assembles interleaved vertex records
//! from them, rejecting models whose texture-coordinate or normal arrays are
//! too short for their position count with a decode error instead of
//! faulting. The materialized [`Mesh`] keeps the records and exposes the
//! exact byte images the host uploads as GPU vertex and index buffers.
//!
//! Coordinate lanes are bit patterns of the host's IEEE single-precision
//! values; this crate never interprets them as numbers.

use vstd::prelude::*;

use vstd::string::StringSliceAdditionalSpecFns;

use crate::LoadError;
use crate::buffer::lane_bytes;
use crate::buffer::lanes_to_bytes;
use crate::store::AssetStore;
use crate::store::Completion;
use crate::store::Submission;
use crate::store::has_id;
use crate::store::load_post;
use crate::store::lookup;
use crate::store::spec_complete;
use crate::store::spec_get;
use crate::store::spec_poll;
use crate::store::first_eligible;
use crate::store::spec_bump;
use crate::store::views_of;

verus! {

/// OBJ mesh text as read from a mesh asset file.
pub struct ObjSource(pub String);

impl From<String> for ObjSource {
    fn from(value: String) -> (r: Self) {
        ObjSource(value)
    }
}

impl vstd::std_specs::convert::FromSpecImpl<String> for ObjSource {
    open spec fn obeys_from_spec() -> bool {
        true
    }

    open spec fn from_spec(v: String) -> Self {
        ObjSource(v)
    }
}

/// One interleaved vertex record: position, texture coordinate and normal
/// lanes, each a 32-bit float bit pattern.
#[derive(Clone, Copy, PartialEq, Eq, Structural, Debug)]
pub struct Vertex {
    pub pos_x: u32,
    pub pos_y: u32,
    pub pos_z: u32,
    pub tex_u: u32,
    pub tex_v: u32,
    pub norm_x: u32,
    pub norm_y: u32,
    pub norm_z: u32,
}

/// The eight lanes of one vertex record, in buffer order.
pub open spec fn vertex_lanes(v: Vertex) -> Seq<u32> {
    seq![v.pos_x, v.pos_y, v.pos_z, v.tex_u, v.tex_v, v.norm_x, v.norm_y, v.norm_z]
}

/// The lanes of a whole vertex sequence, record after record.
pub open spec fn vertices_lanes(s: Seq<Vertex>) -> Seq<u32>
    decreases s.len(),
{
    if s.len() == 0 {
        Seq::empty()
    } else {
        vertex_lanes(s[0]) + vertices_lanes(s.drop_first())
    }
}

/// Appending one record appends its eight lanes.
pub proof fn lemma_vertices_lanes_push(s: Seq<Vertex>, v: Vertex)
    ensures
        vertices_lanes(s.push(v)) == vertices_lanes(s) + vertex_lanes(v),
    decreases s.len(),
{
    if s.len() == 0 {
        assert(s.push(v).drop_first() =~= Seq::<Vertex>::empty());
        assert(vertices_lanes(Seq::<Vertex>::empty()) == Seq::<u32>::empty());
        assert(s.push(v)[0] == v);
        assert(vertices_lanes(s.push(v)) == vertex_lanes(v) + Seq::<u32>::empty());
        assert(vertices_lanes(s.push(v)) =~= vertices_lanes(s) + vertex_lanes(v));
    } else {
        assert(s.push(v).drop_first() =~= s.drop_first().push(v));
        assert(s.push(v)[0] == s[0]);
        lemma_vertices_lanes_push(s.drop_first(), v);
        assert(vertices_lanes(s.push(v)) == vertex_lanes(s[0]) + (vertices_lanes(s.drop_first())
            + vertex_lanes(v)));
        assert(vertices_lanes(s.push(v)) =~= vertices_lanes(s) + vertex_lanes(v));
    }
}

/// Each record occupies eight lanes.
pub proof fn lemma_vertices_lanes_len(s: Seq<Vertex>)
    ensures
        vertices_lanes(s).len() == 8 * s.len(),
    decreases s.len(),
{
    if s.len() > 0 {
        lemma_vertices_lanes_len(s.drop_first());
    }
}

/// The lanes of a concatenation of vertex sequences, in order.
pub proof fn lemma_vertices_lanes_concat(s1: Seq<Vertex>, s2: Seq<Vertex>)
    ensures
        vertices_lanes(s1 + s2) == vertices_lanes(s1) + vertices_lanes(s2),
    decreases s1.len(),
{
    if s1.len() == 0 {
        assert(s1 + s2 =~= s2);
        assert(vertices_lanes(s1) + vertices_lanes(s2) =~= vertices_lanes(s2));
    } else {
        assert((s1 + s2).drop_first() =~= s1.drop_first() + s2);
        assert((s1 + s2)[0] == s1[0]);
        lemma_vertices_lanes_concat(s1.drop_first(), s2);
        assert(vertices_lanes(s1 + s2) =~= vertices_lanes(s1) + vertices_lanes(s2));
    }
}

/// Record `i` of a vertex sequence sits at byte offset 32 i of the
/// sequence's buffer image.
proof fn lemma_vertex_record_at(s: Seq<Vertex>, i: int)
    requires
        0 <= i < s.len(),
    ensures
        lanes_to_bytes(vertices_lanes(s)).subrange(32 * i, 32 * i + 32) == lanes_to_bytes(
            vertex_lanes(s[i]),
        ),
{
    crate::buffer::lemma_lanes_to_bytes_len(vertices_lanes(s));
    lemma_vertices_lanes_len(s);
    let a = s.subrange(0, i);
    let b = s.subrange(i, i + 1);
    let c = s.subrange(i + 1, s.len() as int);
    assert(s =~= (a + b) + c);
    lemma_vertices_lanes_concat(a + b, c);
    lemma_vertices_lanes_concat(a, b);
    lemma_vertices_lanes_len(a);
    lemma_vertices_lanes_len(b);
    assert(b[0] == s[i]);
    assert(b.drop_first() =~= Seq::<Vertex>::empty());
    assert(vertices_lanes(b) == vertex_lanes(s[i]) + Seq::<u32>::empty());
    assert(vertices_lanes(b) =~= vertex_lanes(s[i]));
    assert(vertex_lanes(s[i]).len() == 8);
    crate::buffer::lemma_lanes_to_bytes_subrange(vertices_lanes(s), 8 * i, 8 * i + 8);
    assert(vertices_lanes(s).subrange(8 * i, 8 * i + 8) =~= vertex_lanes(s[i]));
}

/// LAW — the vertex buffer holds one record per vertex. A mesh of N
/// records has a vertex buffer of exactly 32 N bytes, and for every `i`,
/// record `i` is precisely the byte image of vertex `i`, at offset 32 i.
pub proof fn lemma_vertex_buffer_layout(s: Seq<Vertex>)
    ensures
        lanes_to_bytes(vertices_lanes(s)).len() == 32 * s.len(),
        forall|i: int|
            0 <= i < s.len() ==> lanes_to_bytes(vertices_lanes(s)).subrange(32 * i, 32 * i + 32)
                == lanes_to_bytes(vertex_lanes(s[i])),
{
    crate::buffer::lemma_lanes_to_bytes_len(vertices_lanes(s));
    lemma_vertices_lanes_len(s);
    assert forall|i: int|
        0 <= i < s.len() implies lanes_to_bytes(vertices_lanes(s)).subrange(32 * i, 32 * i + 32)
        == lanes_to_bytes(vertex_lanes(s[i])) by {
        lemma_vertex_record_at(s, i);
    }
}

/// A decoded mesh payload, as produced by [`parse_obj`] on a background
/// worker and handed to [`MeshAssets::hot_reload`].
pub struct MeshData {
    pub vertices: Vec<Vertex>,
    pub indices: Vec<u32>,
}

/// A materialized mesh: the records behind its GPU vertex and index
/// buffers. The slot generation in the store distinguishes re-uploads.
pub struct Mesh {
    pub vertices: Vec<Vertex>,
    pub indices: Vec<u32>,
}

impl Mesh {
    /// A mesh over the given records.
    pub fn new(vertices: Vec<Vertex>, indices: Vec<u32>) -> (r: Self)
        ensures
            r == (Mesh { vertices, indices }),
    {
        Mesh { vertices, indices }
    }

    /// Number of indices the draw call for this mesh covers.
    pub fn num_indices(&self) -> (n: usize)
        ensures
            n == self.indices@.len(),
    {
        self.indices.len()
    }

    /// Exact byte image of the GPU vertex buffer: eight little-endian
    /// lanes per record, record after record.
    pub fn vertex_buffer_bytes(&self) -> (out: Vec<u8>)
        ensures
            out@ == lanes_to_bytes(vertices_lanes(self.vertices@)),
    {
        let mut lanes: Vec<u32> = Vec::new();
        let mut i: usize = 0;
        proof {
            assert(self.vertices@.subrange(0, 0) =~= Seq::<Vertex>::empty());
        }
        while i < self.vertices.len()
            invariant
                i <= self.vertices@.len(),
                lanes@ == vertices_lanes(self.vertices@.subrange(0, i as int)),
            decreases self.vertices@.len() - i,
        {
            let v = self.vertices[i];
            lanes.push(v.pos_x);
            lanes.push(v.pos_y);
            lanes.push(v.pos_z);
            lanes.push(v.tex_u);
            lanes.push(v.tex_v);
            lanes.push(v.norm_x);
            lanes.push(v.norm_y);
            lanes.push(v.norm_z);
            proof {
                let pre = self.vertices@.subrange(0, i as int);
                lemma_vertices_lanes_push(pre, v);
                assert(lanes@ =~= vertices_lanes(pre) + vertex_lanes(v));
                assert(self.vertices@.subrange(0, i + 1) =~= pre.push(v));
            }
            i = i + 1;
        }
        proof {
            assert(self.vertices@.subrange(0, self.vertices@.len() as int) =~= self.vertices@);
        }
        lane_bytes(&lanes)
    }

    /// Exact byte image of the GPU index buffer: one little-endian lane per
    /// index, in order.
    pub fn index_buffer_bytes(&self) -> (out: Vec<u8>)
        ensures
            out@ == lanes_to_bytes(self.indices@),
    {
        lane_bytes(&self.indices)
    }
}

/// Tab, treated as in-line whitespace by the pre-scan.
pub const B_TAB: u8 = 9;

/// Newline, the line terminator of the pre-scan.
pub const B_NEWLINE: u8 = 10;

/// Carriage return, treated as in-line whitespace by the pre-scan (the
/// parser strips it from line endings before statements are read).
pub const B_CR: u8 = 13;

/// Space, the usual separator between a statement's tokens.
pub const B_SPACE: u8 = 32;

/// Largest number of digits a face reference may carry: eight digits keep
/// every admitted index below one hundred million, so the parser's index
/// arithmetic cannot overflow on any machine.
pub const FACE_DIGITS_MAX: usize = 8;

/// A byte the pre-scan admits at all: printable ASCII, tab or carriage
/// return. Anything else (controls, bytes of non-ASCII characters) is
/// rejected, so the scan's notion of whitespace and of statement keywords
/// coincides exactly with the parser's on admitted text.
pub open spec fn obj_byte_ok(b: u8) -> bool {
    (B_SPACE <= b && b <= 0x7E) || b == B_TAB || b == B_CR
}

/// An in-line separator byte.
pub open spec fn obj_sep(b: u8) -> bool {
    b == B_SPACE || b == B_TAB || b == B_CR
}

/// An ASCII digit.
pub open spec fn obj_digit(b: u8) -> bool {
    48 <= b && b <= 57
}

/// Progress through one face-reference field (the `v`, `vt` or `vn` part
/// of a token such as `1/2/3`).
#[derive(Clone, Copy, PartialEq, Eq, Structural)]
pub struct FaceScan {
    /// Index of the current field within its token: 0, 1 or 2.
    pub field: usize,
    /// A token is currently open.
    pub in_token: bool,
    /// The current field carries an explicit sign.
    pub has_sign: bool,
    /// The current field's sign is minus: a relative reference.
    pub neg: bool,
    /// Digits seen in the current field.
    pub digits: usize,
    /// Value of those digits, capped at one hundred million; the cap can
    /// only engage past [`FACE_DIGITS_MAX`] digits, where the field is
    /// rejected anyway, so admitted fields carry their exact value.
    pub value: u32,
}

/// Progress through one line of the pre-scan: reading the statement
/// keyword, scanning a face statement's references, or done with a line
/// whose remainder cannot reach the index arithmetic.
#[derive(Clone, Copy, PartialEq, Eq, Structural)]
pub enum LineScan {
    /// Nothing but separators so far.
    AtStart,
    /// The first token so far is exactly `f`.
    KwF,
    /// The first token so far is exactly `l`.
    KwL,
    /// The first token so far is exactly `v`.
    KwV,
    /// The first token so far is exactly `vt`.
    KwVt,
    /// The first token so far is exactly `vn`.
    KwVn,
    /// The first token is none of the statements the scan cares about.
    KwOther,
    /// Scanning the references of a face (`f` or `l`) statement.
    Face(FaceScan),
    /// The rest of the line is irrelevant to safety.
    Rest,
}

/// Whole-text pre-scan state: acceptance so far, the element counts that
/// bound relative references, and the current line's progress.
#[derive(Clone, Copy, PartialEq, Eq, Structural)]
pub struct ScanState {
    /// No violation seen so far.
    pub ok: bool,
    /// Position statements (`v`) completed so far.
    pub nv: usize,
    /// Texture-coordinate statements (`vt`) completed so far.
    pub nvt: usize,
    /// Normal statements (`vn`) completed so far.
    pub nvn: usize,
    /// Progress through the current line.
    pub line: LineScan,
}

/// A fresh face-token state.
pub open spec fn face_fresh() -> FaceScan {
    FaceScan { field: 0, in_token: false, has_sign: false, neg: false, digits: 0, value: 0 }
}

/// The pre-scan's initial state.
pub open spec fn scan_init() -> ScanState {
    ScanState { ok: true, nv: 0, nvt: 0, nvn: 0, line: LineScan::AtStart }
}

/// Counter values stay meaningful: they saturate instead of wrapping.
pub open spec fn count_bump(n: usize) -> usize {
    if n == usize::MAX {
        n
    } else {
        (n + 1) as usize
    }
}

/// Close the current field of a face token: an empty field is fine (the
/// parser skips it), a signless all-zero or out-of-range reference is not.
/// A relative (negative) reference must not reach past the elements seen
/// so far, or the parser's index would wrap.
pub open spec fn finish_field(st: ScanState, fs: FaceScan) -> (bool, FaceScan) {
    let limit = if fs.field == 0 {
        st.nv
    } else if fs.field == 1 {
        st.nvt
    } else {
        st.nvn
    };
    let field_ok = if fs.digits == 0 {
        !fs.has_sign
    } else {
        fs.value >= 1 && (!fs.neg || fs.value as usize <= limit)
    };
    (
        field_ok,
        FaceScan {
            field: fs.field,
            in_token: fs.in_token,
            has_sign: false,
            neg: false,
            digits: 0,
            value: 0,
        },
    )
}

/// One byte of a face statement's reference list.
pub open spec fn face_step(st: ScanState, fs: FaceScan, b: u8) -> ScanState {
    if obj_digit(b) {
        if fs.in_token && fs.digits >= FACE_DIGITS_MAX {
            ScanState { ok: false, ..st }
        } else {
            let v0 = if fs.in_token {
                fs.value
            } else {
                0
            };
            let d0 = if fs.in_token {
                fs.digits
            } else {
                0
            };
            let sum = v0 * 10 + (b - 48);
            ScanState {
                line: LineScan::Face(
                    FaceScan {
                        field: if fs.in_token {
                            fs.field
                        } else {
                            0
                        },
                        in_token: true,
                        has_sign: fs.in_token && fs.has_sign,
                        neg: fs.in_token && fs.neg,
                        digits: (d0 + 1) as usize,
                        value: if sum > 100000000 {
                            100000000 as u32
                        } else {
                            sum as u32
                        },
                    },
                ),
                ..st
            }
        }
    } else if b == 43 || b == 45 {  // '+' or '-'
        if fs.in_token && (fs.has_sign || fs.digits > 0) {
            ScanState { ok: false, ..st }
        } else {
            ScanState {
                line: LineScan::Face(
                    FaceScan {
                        field: if fs.in_token {
                            fs.field
                        } else {
                            0
                        },
                        in_token: true,
                        has_sign: true,
                        neg: b == 45,
                        digits: 0,
                        value: 0,
                    },
                ),
                ..st
            }
        }
    } else if b == 47 {  // '/': next field of the token
        let fs1 = if fs.in_token {
            fs
        } else {
            FaceScan { in_token: true, ..face_fresh() }
        };
        let closed = finish_field(st, fs1);
        if !closed.0 || fs1.field >= 2 {
            ScanState { ok: false, ..st }
        } else {
            ScanState {
                line: LineScan::Face(FaceScan { field: (fs1.field + 1) as usize, ..closed.1 }),
                ..st
            }
        }
    } else if obj_sep(b) {
        if fs.in_token {
            let closed = finish_field(st, fs);
            if !closed.0 {
                ScanState { ok: false, ..st }
            } else {
                ScanState {
                    line: LineScan::Face(FaceScan { field: 0, in_token: false, ..closed.1 }),
                    ..st
                }
            }
        } else {
            st
        }
    } else {
        // Any other byte in a face reference: not something the scan can
        // vouch for.
        ScanState { ok: false, ..st }
    }
}

/// End of line: close a pending face field, and complete an element
/// statement by bumping its count (the counts a face line's relative
/// references are checked against).
pub open spec fn scan_eol(st: ScanState) -> ScanState {
    if !st.ok {
        st
    } else {
        match st.line {
            LineScan::KwV => ScanState { nv: count_bump(st.nv), line: LineScan::AtStart, ..st },
            LineScan::KwVt => ScanState {
                nvt: count_bump(st.nvt),
                line: LineScan::AtStart,
                ..st
            },
            LineScan::KwVn => ScanState {
                nvn: count_bump(st.nvn),
                line: LineScan::AtStart,
                ..st
            },
            LineScan::Face(fs) => {
                if fs.in_token {
                    let closed = finish_field(st, fs);
                    ScanState { ok: closed.0, line: LineScan::AtStart, ..st }
                } else {
                    ScanState { line: LineScan::AtStart, ..st }
                }
            },
            _ => ScanState { line: LineScan::AtStart, ..st },
        }
    }
}

/// One byte of the pre-scan.
pub open spec fn scan_step(st: ScanState, b: u8) -> ScanState {
    if !st.ok {
        st
    } else if b == B_NEWLINE {
        scan_eol(st)
    } else if !obj_byte_ok(b) {
        ScanState { ok: false, ..st }
    } else {
        match st.line {
            LineScan::AtStart => {
                if obj_sep(b) {
                    st
                } else if b == 102 {  // 'f'
                    ScanState { line: LineScan::KwF, ..st }
                } else if b == 108 {  // 'l'
                    ScanState { line: LineScan::KwL, ..st }
                } else if b == 118 {  // 'v'
                    ScanState { line: LineScan::KwV, ..st }
                } else {
                    ScanState { line: LineScan::KwOther, ..st }
                }
            },
            LineScan::KwF => {
                if obj_sep(b) {
                    ScanState { line: LineScan::Face(face_fresh()), ..st }
                } else {
                    ScanState { line: LineScan::KwOther, ..st }
                }
            },
            LineScan::KwL => {
                if obj_sep(b) {
                    ScanState { line: LineScan::Face(face_fresh()), ..st }
                } else {
                    ScanState { line: LineScan::KwOther, ..st }
                }
            },
            LineScan::KwV => {
                if obj_sep(b) {
                    ScanState { nv: count_bump(st.nv), line: LineScan::Rest, ..st }
                } else if b == 116 {  // 't'
                    ScanState { line: LineScan::KwVt, ..st }
                } else if b == 110 {  // 'n'
                    ScanState { line: LineScan::KwVn, ..st }
                } else {
                    ScanState { line: LineScan::KwOther, ..st }
                }
            },
            LineScan::KwVt => {
                if obj_sep(b) {
                    ScanState { nvt: count_bump(st.nvt), line: LineScan::Rest, ..st }
                } else {
                    ScanState { line: LineScan::KwOther, ..st }
                }
            },
            LineScan::KwVn => {
                if obj_sep(b) {
                    ScanState { nvn: count_bump(st.nvn), line: LineScan::Rest, ..st }
                } else {
                    ScanState { line: LineScan::KwOther, ..st }
                }
            },
            LineScan::KwOther => {
                if obj_sep(b) {
                    ScanState { line: LineScan::Rest, ..st }
                } else {
                    st
                }
            },
            LineScan::Face(fs) => face_step(st, fs, b),
            LineScan::Rest => st,
        }
    }
}

/// The pre-scan state after the first `i` bytes of the text.
pub open spec fn scan_prefix(bytes: Seq<u8>, i: int) -> ScanState
    decreases i,
{
    if i <= 0 {
        scan_init()
    } else {
        scan_step(scan_prefix(bytes, i - 1), bytes[i - 1])
    }
}

/// The text is safe to hand to the outside OBJ parser: ASCII with tame
/// line endings, and every face reference is an explicit index of at most
/// [`FACE_DIGITS_MAX`] digits — never zero — or a relative one reaching no
/// further back than the elements declared so far. On such text the
/// parser's unchecked index arithmetic can neither overflow nor wrap, so
/// it either resolves in range or reports an error.
pub open spec fn obj_text_safe(bytes: Seq<u8>) -> bool {
    scan_eol(scan_prefix(bytes, bytes.len() as int)).ok
}

/// Scan-state values the scanner can actually reach: the field index and
/// the capped digit accumulator stay in range.
pub open spec fn scan_wf(st: ScanState) -> bool {
    match st.line {
        LineScan::Face(fs) => {
            &&& fs.field <= 2
            &&& fs.value <= 100000000
        },
        _ => true,
    }
}

/// Close the current field of a face token; see [`finish_field`].
fn finish_field_x(st: &ScanState, fs: FaceScan) -> (r: (bool, FaceScan))
    ensures
        r == finish_field(*st, fs),
{
    let limit = if fs.field == 0 {
        st.nv
    } else if fs.field == 1 {
        st.nvt
    } else {
        st.nvn
    };
    let field_ok = if fs.digits == 0 {
        !fs.has_sign
    } else {
        fs.value >= 1 && (!fs.neg || fs.value as usize <= limit)
    };
    (
        field_ok,
        FaceScan {
            field: fs.field,
            in_token: fs.in_token,
            has_sign: false,
            neg: false,
            digits: 0,
            value: 0,
        },
    )
}

/// One byte of the pre-scan; see [`scan_step`].
fn scan_step_x(st: ScanState, b: u8) -> (r: ScanState)
    requires
        scan_wf(st),
    ensures
        r == scan_step(st, b),
        scan_wf(r),
{
    if !st.ok {
        st
    } else if b == B_NEWLINE {
        scan_eol_x(st)
    } else if !((B_SPACE <= b && b <= 0x7E) || b == B_TAB || b == B_CR) {
        ScanState { ok: false, ..st }
    } else {
        match st.line {
            LineScan::AtStart => {
                if b == B_SPACE || b == B_TAB || b == B_CR {
                    st
                } else if b == 102 {
                    ScanState { line: LineScan::KwF, ..st }
                } else if b == 108 {
                    ScanState { line: LineScan::KwL, ..st }
                } else if b == 118 {
                    ScanState { line: LineScan::KwV, ..st }
                } else {
                    ScanState { line: LineScan::KwOther, ..st }
                }
            },
            LineScan::KwF => {
                if b == B_SPACE || b == B_TAB || b == B_CR {
                    ScanState {
                        line: LineScan::Face(
                            FaceScan {
                                field: 0,
                                in_token: false,
                                has_sign: false,
                                neg: false,
                                digits: 0,
                                value: 0,
                            },
                        ),
                        ..st
                    }
                } else {
                    ScanState { line: LineScan::KwOther, ..st }
                }
            },
            LineScan::KwL => {
                if b == B_SPACE || b == B_TAB || b == B_CR {
                    ScanState {
                        line: LineScan::Face(
                            FaceScan {
                                field: 0,
                                in_token: false,
                                has_sign: false,
                                neg: false,
                                digits: 0,
                                value: 0,
                            },
                        ),
                        ..st
                    }
                } else {
                    ScanState { line: LineScan::KwOther, ..st }
                }
            },
            LineScan::KwV => {
                if b == B_SPACE || b == B_TAB || b == B_CR {
                    ScanState { nv: count_bump_x(st.nv), line: LineScan::Rest, ..st }
                } else if b == 116 {
                    ScanState { line: LineScan::KwVt, ..st }
                } else if b == 110 {
                    ScanState { line: LineScan::KwVn, ..st }
                } else {
                    ScanState { line: LineScan::KwOther, ..st }
                }
            },
            LineScan::KwVt => {
                if b == B_SPACE || b == B_TAB || b == B_CR {
                    ScanState { nvt: count_bump_x(st.nvt), line: LineScan::Rest, ..st }
                } else {
                    ScanState { line: LineScan::KwOther, ..st }
                }
            },
            LineScan::KwVn => {
                if b == B_SPACE || b == B_TAB || b == B_CR {
                    ScanState { nvn: count_bump_x(st.nvn), line: LineScan::Rest, ..st }
                } else {
                    ScanState { line: LineScan::KwOther, ..st }
                }
            },
            LineScan::KwOther => {
                if b == B_SPACE || b == B_TAB || b == B_CR {
                    ScanState { line: LineScan::Rest, ..st }
                } else {
                    st
                }
            },
            LineScan::Face(fs) => {
                if 48 <= b && b <= 57 {
                    if fs.in_token && fs.digits >= FACE_DIGITS_MAX {
                        ScanState { ok: false, ..st }
                    } else {
                        let v0: u32 = if fs.in_token {
                            fs.value
                        } else {
                            0
                        };
                        let d0: usize = if fs.in_token {
                            fs.digits
                        } else {
                            0
                        };
                        let sum: u32 = v0 * 10 + ((b - 48) as u32);
                        ScanState {
                            line: LineScan::Face(
                                FaceScan {
                                    field: if fs.in_token {
                                        fs.field
                                    } else {
                                        0
                                    },
                                    in_token: true,
                                    has_sign: fs.in_token && fs.has_sign,
                                    neg: fs.in_token && fs.neg,
                                    digits: d0 + 1,
                                    value: if sum > 100000000 {
                                        100000000
                                    } else {
                                        sum
                                    },
                                },
                            ),
                            ..st
                        }
                    }
                } else if b == 43 || b == 45 {
                    if fs.in_token && (fs.has_sign || fs.digits > 0) {
                        ScanState { ok: false, ..st }
                    } else {
                        ScanState {
                            line: LineScan::Face(
                                FaceScan {
                                    field: if fs.in_token {
                                        fs.field
                                    } else {
                                        0
                                    },
                                    in_token: true,
                                    has_sign: true,
                                    neg: b == 45,
                                    digits: 0,
                                    value: 0,
                                },
                            ),
                            ..st
                        }
                    }
                } else if b == 47 {
                    let fs1 = if fs.in_token {
                        fs
                    } else {
                        FaceScan {
                            field: 0,
                            in_token: true,
                            has_sign: false,
                            neg: false,
                            digits: 0,
                            value: 0,
                        }
                    };
                    let closed = finish_field_x(&st, fs1);
                    if !closed.0 || fs1.field >= 2 {
                        ScanState { ok: false, ..st }
                    } else {
                        ScanState {
                            line: LineScan::Face(FaceScan { field: fs1.field + 1, ..closed.1 }),
                            ..st
                        }
                    }
                } else if b == B_SPACE || b == B_TAB || b == B_CR {
                    if fs.in_token {
                        let closed = finish_field_x(&st, fs);
                        if !closed.0 {
                            ScanState { ok: false, ..st }
                        } else {
                            ScanState {
                                line: LineScan::Face(
                                    FaceScan { field: 0, in_token: false, ..closed.1 },
                                ),
                                ..st
                            }
                        }
                    } else {
                        st
                    }
                } else {
                    ScanState { ok: false, ..st }
                }
            },
            LineScan::Rest => st,
        }
    }
}

/// End of line; see [`scan_eol`].
fn scan_eol_x(st: ScanState) -> (r: ScanState)
    requires
        scan_wf(st),
    ensures
        r == scan_eol(st),
        scan_wf(r),
{
    if !st.ok {
        st
    } else {
        match st.line {
            LineScan::KwV => ScanState { nv: count_bump_x(st.nv), line: LineScan::AtStart, ..st },
            LineScan::KwVt => ScanState {
                nvt: count_bump_x(st.nvt),
                line: LineScan::AtStart,
                ..st
            },
            LineScan::KwVn => ScanState {
                nvn: count_bump_x(st.nvn),
                line: LineScan::AtStart,
                ..st
            },
            LineScan::Face(fs) => {
                if fs.in_token {
                    let closed = finish_field_x(&st, fs);
                    ScanState { ok: closed.0, line: LineScan::AtStart, ..st }
                } else {
                    ScanState { line: LineScan::AtStart, ..st }
                }
            },
            _ => ScanState { line: LineScan::AtStart, ..st },
        }
    }
}

/// Saturating counter bump; see [`count_bump`].
fn count_bump_x(n: usize) -> (r: usize)
    ensures
        r == count_bump(n),
{
    if n == usize::MAX {
        n
    } else {
        n + 1
    }
}

/// Decide [`obj_text_safe`] for the given UTF-8 bytes.
fn obj_text_safe_check(bytes: &[u8]) -> (r: bool)
    ensures
        r == obj_text_safe(bytes@),
{
    let mut st = ScanState { ok: true, nv: 0, nvt: 0, nvn: 0, line: LineScan::AtStart };
    proof {
        assert(st == scan_init());
    }
    let mut i: usize = 0;
    while i < bytes.len()
        invariant
            i <= bytes@.len(),
            st == scan_prefix(bytes@, i as int),
            scan_wf(st),
        decreases bytes@.len() - i,
    {
        st = scan_step_x(st, bytes[i]);
        i = i + 1;
    }
    let fin = scan_eol_x(st);
    fin.ok
}

/// One model as the outside OBJ parser reports it: flattened position,
/// texture-coordinate and normal lanes, plus triangle indices.
pub struct ObjModelData {
    pub positions: Vec<u32>,
    pub texcoords: Vec<u32>,
    pub normals: Vec<u32>,
    pub indices: Vec<u32>,
}

impl View for ObjModelData {
    type V = (Seq<u32>, Seq<u32>, Seq<u32>, Seq<u32>);

    open spec fn view(&self) -> Self::V {
        (self.positions@, self.texcoords@, self.normals@, self.indices@)
    }
}

/// What the outside OBJ parser produces from the given text: `None` exactly
/// when it rejects the text, otherwise one entry per model. Stated only by
/// name: the OBJ grammar is the parser's. The name is relied upon only for
/// text the pre-scan admits (see [`obj_text_safe`]), where the parse is
/// total and machine-independent.
pub uninterp spec fn obj_parse(text: Seq<char>) -> Option<
    Seq<(Seq<u32>, Seq<u32>, Seq<u32>, Seq<u32>)>,
>;

/// Relies on tobj::load_obj_buf with GPU_LOAD_OPTIONS: OBJ text decodes
/// into triangulated, single-indexed models, or is rejected; the outcome
/// depends on the text alone. Lanes carry the bit patterns of the parsed
/// coordinates.
///
/// The parser resolves face references with unchecked index arithmetic,
/// which can fault (or, without overflow checks, wrap by the machine's
/// word width) on a zero, far-out-of-range negative, or absurdly large
/// reference. The precondition therefore admits only text the verified
/// pre-scan accepts: there every reference either resolves in range or is
/// rejected by the parser's own bounds checks before any such arithmetic
/// misbehaves, so the call returns normally and its result depends on the
/// text alone.
#[verifier::external_body]
fn tobj_parse(text: &str) -> (r: Result<Vec<ObjModelData>, LoadError>)
    requires
        obj_text_safe(text.spec_bytes()),
    ensures
        r is Ok <==> obj_parse(text@) is Some,
        r matches Ok(models) ==> Some(models@.map_values(|m: ObjModelData| m@)) == obj_parse(
            text@,
        ),
        r matches Err(e) ==> e == LoadError::Decode,
{
    let mut cursor = std::io::Cursor::new(text.as_bytes());
    let loaded = tobj::load_obj_buf(&mut cursor, &tobj::GPU_LOAD_OPTIONS, |_| {
        Err(tobj::LoadError::OpenFileFailed)
    });
    match loaded {
        Ok((models, _)) => Ok(models.into_iter().map(|m| ObjModelData {
            positions: m.mesh.positions.iter().map(|x| x.to_bits()).collect(),
            texcoords: m.mesh.texcoords.iter().map(|x| x.to_bits()).collect(),
            normals: m.mesh.normals.iter().map(|x| x.to_bits()).collect(),
            indices: m.mesh.indices,
        }).collect()),
        Err(_) => Err(LoadError::Decode),
    }
}

/// Number of vertex records a model provides: one per position triple.
pub open spec fn model_vcount(m: (Seq<u32>, Seq<u32>, Seq<u32>, Seq<u32>)) -> int {
    m.0.len() as int / 3
}

/// The model has a full texture coordinate pair and normal triple for every
/// position triple; a model without them cannot be assembled.
pub open spec fn model_ok(m: (Seq<u32>, Seq<u32>, Seq<u32>, Seq<u32>)) -> bool {
    &&& 2 * model_vcount(m) <= m.1.len()
    &&& 3 * model_vcount(m) <= m.2.len()
}

/// Record `i` of a model: its position triple, texture pair and normal
/// triple, read at the matching offsets.
pub open spec fn model_vertex(m: (Seq<u32>, Seq<u32>, Seq<u32>, Seq<u32>), i: int) -> Vertex {
    Vertex {
        pos_x: m.0[3 * i],
        pos_y: m.0[3 * i + 1],
        pos_z: m.0[3 * i + 2],
        tex_u: m.1[2 * i],
        tex_v: m.1[2 * i + 1],
        norm_x: m.2[3 * i],
        norm_y: m.2[3 * i + 1],
        norm_z: m.2[3 * i + 2],
    }
}

/// All records of one model, in order.
pub open spec fn model_vertices(m: (Seq<u32>, Seq<u32>, Seq<u32>, Seq<u32>)) -> Seq<Vertex> {
    Seq::new(model_vcount(m) as nat, |i: int| model_vertex(m, i))
}

/// Every model in the parse can be assembled.
pub open spec fn models_ok(ms: Seq<(Seq<u32>, Seq<u32>, Seq<u32>, Seq<u32>)>) -> bool {
    forall|i: int| 0 <= i < ms.len() ==> model_ok(#[trigger] ms[i])
}

/// Vertex records of all models, concatenated in model order.
pub open spec fn models_vertices(ms: Seq<(Seq<u32>, Seq<u32>, Seq<u32>, Seq<u32>)>) -> Seq<
    Vertex,
>
    decreases ms.len(),
{
    if ms.len() == 0 {
        Seq::empty()
    } else {
        model_vertices(ms[0]) + models_vertices(ms.drop_first())
    }
}

/// Triangle indices of all models, concatenated in model order.
pub open spec fn models_indices(ms: Seq<(Seq<u32>, Seq<u32>, Seq<u32>, Seq<u32>)>) -> Seq<u32>
    decreases ms.len(),
{
    if ms.len() == 0 {
        Seq::empty()
    } else {
        ms[0].3 + models_indices(ms.drop_first())
    }
}

/// Appending a model appends its records.
pub proof fn lemma_models_vertices_push(
    ms: Seq<(Seq<u32>, Seq<u32>, Seq<u32>, Seq<u32>)>,
    m: (Seq<u32>, Seq<u32>, Seq<u32>, Seq<u32>),
)
    ensures
        models_vertices(ms.push(m)) == models_vertices(ms) + model_vertices(m),
    decreases ms.len(),
{
    if ms.len() == 0 {
        assert(ms.push(m).drop_first() =~= Seq::<(Seq<u32>, Seq<u32>, Seq<u32>, Seq<u32>)>::empty());
        assert(models_vertices(Seq::<(Seq<u32>, Seq<u32>, Seq<u32>, Seq<u32>)>::empty())
            == Seq::<Vertex>::empty());
        assert(ms.push(m)[0] == m);
        assert(models_vertices(ms.push(m)) == model_vertices(m) + Seq::<Vertex>::empty());
        assert(models_vertices(ms.push(m)) =~= models_vertices(ms) + model_vertices(m));
    } else {
        assert(ms.push(m).drop_first() =~= ms.drop_first().push(m));
        assert(ms.push(m)[0] == ms[0]);
        lemma_models_vertices_push(ms.drop_first(), m);
        assert(models_vertices(ms.push(m)) == model_vertices(ms[0]) + (models_vertices(
            ms.drop_first(),
        ) + model_vertices(m)));
        assert(models_vertices(ms.push(m)) =~= models_vertices(ms) + model_vertices(m));
    }
}

/// Appending a model appends its indices.
pub proof fn lemma_models_indices_push(
    ms: Seq<(Seq<u32>, Seq<u32>, Seq<u32>, Seq<u32>)>,
    m: (Seq<u32>, Seq<u32>, Seq<u32>, Seq<u32>),
)
    ensures
        models_indices(ms.push(m)) == models_indices(ms) + m.3,
    decreases ms.len(),
{
    if ms.len() == 0 {
        assert(ms.push(m).drop_first() =~= Seq::<(Seq<u32>, Seq<u32>, Seq<u32>, Seq<u32>)>::empty());
        assert(models_indices(Seq::<(Seq<u32>, Seq<u32>, Seq<u32>, Seq<u32>)>::empty())
            == Seq::<u32>::empty());
        assert(ms.push(m)[0] == m);
        assert(models_indices(ms.push(m)) == m.3 + Seq::<u32>::empty());
        assert(models_indices(ms.push(m)) =~= models_indices(ms) + m.3);
    } else {
        assert(ms.push(m).drop_first() =~= ms.drop_first().push(m));
        assert(ms.push(m)[0] == ms[0]);
        lemma_models_indices_push(ms.drop_first(), m);
        assert(models_indices(ms.push(m)) == ms[0].3 + (models_indices(ms.drop_first()) + m.3));
        assert(models_indices(ms.push(m)) =~= models_indices(ms) + m.3);
    }
}

/// Assemble interleaved vertex records from parsed models, rejecting any
/// model whose texture or normal arrays fall short of its position count.
fn assemble_models(models: Vec<ObjModelData>) -> (r: Result<MeshData, LoadError>)
    ensures
        r is Ok <==> models_ok(models@.map_values(|m: ObjModelData| m@)),
        r matches Ok(d) ==> {
            &&& d.vertices@ == models_vertices(models@.map_values(|m: ObjModelData| m@))
            &&& d.indices@ == models_indices(models@.map_values(|m: ObjModelData| m@))
        },
        r matches Err(e) ==> e == LoadError::Decode,
{
    let ghost vms = models@.map_values(|m: ObjModelData| m@);
    let mut vertices: Vec<Vertex> = Vec::new();
    let mut indices: Vec<u32> = Vec::new();
    let mut mi: usize = 0;
    proof {
        assert(vms.subrange(0, 0) =~= Seq::<(Seq<u32>, Seq<u32>, Seq<u32>, Seq<u32>)>::empty());
    }
    while mi < models.len()
        invariant
            mi <= models@.len(),
            vms == models@.map_values(|m: ObjModelData| m@),
            forall|j: int| 0 <= j < mi ==> model_ok(#[trigger] vms[j]),
            vertices@ == models_vertices(vms.subrange(0, mi as int)),
            indices@ == models_indices(vms.subrange(0, mi as int)),
        decreases models@.len() - mi,
    {
        let ghost vm = vms[mi as int];
        let plen = models[mi].positions.len();
        let tlen = models[mi].texcoords.len();
        let nlen = models[mi].normals.len();
        let vcount = plen / 3;
        proof {
            assert(vm == models@[mi as int]@);
            assert(plen == vm.0.len() && tlen == vm.1.len() && nlen == vm.2.len());
            assert(vcount == model_vcount(vm));
        }
        let tex_short = tlen / 2 < vcount;
        let norm_short = nlen / 3 < vcount;
        proof {
            assert(tex_short <==> 2 * model_vcount(vm) > vm.1.len()) by (nonlinear_arith)
                requires
                    tex_short == (vm.1.len() as int / 2 < vcount),
                    vcount == model_vcount(vm),
            ;
            assert(norm_short <==> 3 * model_vcount(vm) > vm.2.len()) by (nonlinear_arith)
                requires
                    norm_short == (vm.2.len() as int / 3 < vcount),
                    vcount == model_vcount(vm),
            ;
        }
        if tex_short || norm_short {
            return Err(LoadError::Decode);
        }
        let mut i: usize = 0;
        let ghost base = vertices@;
        proof {
            assert(model_vertices(vm).subrange(0, 0) =~= Seq::<Vertex>::empty());
            assert(base + model_vertices(vm).subrange(0, 0) =~= base);
            assert(3 * (vm.0.len() as int / 3) <= vm.0.len() as int) by (nonlinear_arith);
        }
        while i < vcount
            invariant
                i <= vcount,
                vcount == model_vcount(vm),
                model_ok(vm),
                vm == models@[mi as int]@,
                mi < models@.len(),
                3 * vcount <= vm.0.len(),
                vm.0.len() <= usize::MAX,
                vm.1.len() <= usize::MAX,
                vm.2.len() <= usize::MAX,
                vertices@ == base + model_vertices(vm).subrange(0, i as int),
            decreases vcount - i,
        {
            let v = Vertex {
                pos_x: models[mi].positions[3 * i],
                pos_y: models[mi].positions[3 * i + 1],
                pos_z: models[mi].positions[3 * i + 2],
                tex_u: models[mi].texcoords[2 * i],
                tex_v: models[mi].texcoords[2 * i + 1],
                norm_x: models[mi].normals[3 * i],
                norm_y: models[mi].normals[3 * i + 1],
                norm_z: models[mi].normals[3 * i + 2],
            };
            vertices.push(v);
            proof {
                assert(v == model_vertex(vm, i as int));
                assert(model_vertices(vm).subrange(0, i + 1) =~= model_vertices(vm).subrange(
                    0,
                    i as int,
                ).push(v));
                assert(vertices@ =~= base + model_vertices(vm).subrange(0, i + 1));
            }
            i = i + 1;
        }
        proof {
            assert(model_vertices(vm).subrange(0, vcount as int) =~= model_vertices(vm));
        }
        let mut more = models[mi].indices.clone();
        indices.append(&mut more);
        proof {
            lemma_models_vertices_push(vms.subrange(0, mi as int), vm);
            lemma_models_indices_push(vms.subrange(0, mi as int), vm);
            assert(vms.subrange(0, mi + 1) =~= vms.subrange(0, mi as int).push(vm));
        }
        mi = mi + 1;
    }
    proof {
        assert(vms.subrange(0, vms.len() as int) =~= vms);
    }
    Ok(MeshData { vertices, indices })
}

/// Decode OBJ text into a mesh payload: the verified pre-scan
/// ([`obj_text_safe`]), the outside parse named by [`obj_parse`], then
/// verified record assembly. `Ok` exactly when the text passes the scan,
/// parses, and every model carries full texture and normal data; anything
/// else — including text the scan rejects, which the parser could not be
/// trusted with — is a decode error.
pub fn parse_obj(text: &str) -> (r: Result<MeshData, LoadError>)
    ensures
        r is Ok <==> (obj_text_safe(text.spec_bytes()) && (obj_parse(text@) matches Some(ms)
            && models_ok(ms))),
        r matches Ok(d) ==> {
            &&& obj_parse(text@) matches Some(ms)
            &&& d.vertices@ == models_vertices(obj_parse(text@)->0)
            &&& d.indices@ == models_indices(obj_parse(text@)->0)
        },
        r matches Err(e) ==> e == LoadError::Decode,
{
    if !obj_text_safe_check(text.as_bytes()) {
        return Err(LoadError::Decode);
    }
    match tobj_parse(text) {
        Ok(models) => assemble_models(models),
        Err(e) => Err(e),
    }
}

/// Payload-to-resource step for a finished mesh decode.
pub open spec fn mesh_result(r: Result<MeshData, LoadError>) -> Result<Mesh, LoadError> {
    match r {
        Ok(d) => Ok(Mesh { vertices: d.vertices, indices: d.indices }),
        Err(e) => Err(e),
    }
}

/// Mesh registry: the lifecycle store for meshes.
pub struct MeshAssets {
    pub store: AssetStore<Mesh>,
}

impl MeshAssets {
    /// An empty registry.
    pub fn new() -> (r: Self)
        ensures
            r.store.wf(),
            r.store.slots@.len() == 0,
            r.store.last_reload == 0,
            r.store.frame_reloaded is None,
    {
        MeshAssets { store: AssetStore::new() }
    }

    /// Request mesh `id`; see [`AssetStore::load`].
    pub fn load(&mut self, id: &str) -> (sub: Option<Submission>)
        requires
            old(self).store.wf(),
        ensures
            final(self).store.wf(),
            final(self).store.last_reload == old(self).store.last_reload,
            final(self).store.frame_reloaded == old(self).store.frame_reloaded,
            load_post(old(self).store.slots@, final(self).store.slots@, sub is Some, id@),
            sub matches Some(s) ==> {
                &&& s.id@ == id@
                &&& has_id(final(self).store.slots@, id@)
                &&& s.token == lookup(final(self).store.slots@, id@)->0.token
            },
    {
        self.store.load(id)
    }

    /// Per-frame lifecycle step; see [`AssetStore::hot_reload`]. A completed
    /// decode carries a [`MeshData`], which becomes the new [`Mesh`].
    pub fn hot_reload(
        &mut self,
        changed: &Vec<String>,
        completion: Option<Completion<MeshData>>,
        now_ms: u64,
    ) -> (subs: Vec<Submission>)
        requires
            old(self).store.wf(),
            old(self).store.last_reload <= now_ms,
        ensures
            final(self).store.wf(),
            ({
                let ch = views_of(changed@);
                let polled = spec_poll(
                    old(self).store.slots@,
                    ch,
                    now_ms,
                    old(self).store.last_reload,
                );
                let done = match completion {
                    Some(c) => spec_complete(
                        polled.0,
                        Completion { id: c.id, token: c.token, result: mesh_result(c.result) },
                    ),
                    None => (polled.0, None::<String>),
                };
                &&& final(self).store.slots@ == done.0
                &&& final(self).store.last_reload == polled.1
                &&& final(self).store.frame_reloaded == done.1
                &&& match first_eligible(
                    old(self).store.slots@,
                    ch,
                    now_ms,
                    old(self).store.last_reload,
                ) {
                    Some(k) => {
                        &&& subs@.len() == 1
                        &&& subs@[0].id@ == old(self).store.slots@[k].id@
                        &&& subs@[0].token == spec_bump(old(self).store.slots@[k].token)
                    },
                    None => subs@.len() == 0,
                }
            }),
    {
        let mapped: Option<Completion<Mesh>> = match completion {
            Some(c) => Some(
                Completion {
                    id: c.id,
                    token: c.token,
                    result: match c.result {
                        Ok(d) => Ok(Mesh::new(d.vertices, d.indices)),
                        Err(e) => Err(e),
                    },
                },
            ),
            None => None,
        };
        self.store.hot_reload(changed, mapped, now_ms)
    }

    /// The mesh for `id`, or `None` while it is unrequested or still on its
    /// first load.
    pub fn get(&self, id: &str) -> (r: Option<&Mesh>)
        ensures
            match r {
                Some(x) => spec_get(self.store.slots@, id@) == Some(*x),
                None => spec_get(self.store.slots@, id@) is None,
            },
    {
        self.store.get(id)
    }

    /// The generation of the mesh for `id`, if one is materialized.
    pub fn generation(&self, id: &str) -> (g: Option<u64>)
        ensures
            match lookup(self.store.slots@, id@) {
                Some(sl) => g == (if sl.res is Some {
                    Some(sl.generation)
                } else {
                    None::<u64>
                }),
                None => g is None,
            },
    {
        self.store.generation(id)
    }
}

} // verus!
