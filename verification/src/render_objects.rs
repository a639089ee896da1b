//! The scene model: colours, the camera, faces and meshes.
//!
//! A `Mesh` owns its vertex and face lists; every face refers to vertices
//! by index, and construction validates that each index is in bounds, so
//! a well-formed mesh can never provoke an out-of-bounds vertex lookup.

use vstd::prelude::*;
use crate::fixed::{Fx, SCALE, spec_neg};
use crate::structures::{
    Vector, Matrix, spec_normalised, spec_minus, spec_cross, spec_dot, fx0, fx1,
};

verus! {

/// A colour: either full RGBA or a grey intensity.  Every channel lies in
/// the unit interval; only the alpha or intensity channel drives glyph
/// selection, the RGB channels are carried but not consumed.
#[derive(Clone, Copy, PartialEq, Eq, Structural, Debug)]
pub enum Colour {
    Rgba(Fx, Fx, Fx, Fx),
    Grey(Fx),
}

/// The channel of a colour that drives glyph selection.
pub open spec fn spec_alpha(c: Colour) -> Fx {
    match c {
        Colour::Rgba(_r, _g, _b, a) => a,
        Colour::Grey(a) => a,
    }
}

impl Colour {
    /// The alpha (or grey intensity) channel.
    pub fn alpha(self) -> (r: Fx)
        ensures
            r == spec_alpha(self),
    {
        match self {
            Colour::Rgba(_r, _g, _b, a) => a,
            Colour::Grey(a) => a,
        }
    }
}

/// The point of view to render from.
#[derive(Clone, Copy, PartialEq, Eq, Structural, Debug)]
pub struct Camera {
    pub pos: Vector,
    pub target: Vector,
    pub up: Vector,
}

/// The view transform of a camera: a look-at construction from its
/// position, target and up vector.  The camera basis is built from the
/// normalized back axis (position minus target), the normalized right
/// axis (up crossed with back) and the true up axis completing them.
pub open spec fn spec_view(c: Camera) -> Matrix {
    let zb = spec_normalised(spec_minus(c.pos, c.target));
    let xb = spec_normalised(spec_cross(c.up, zb));
    let yb = spec_cross(zb, xb);
    Matrix {
        r0: Vector { x: xb.x, y: xb.y, z: xb.z, w: spec_neg(spec_dot(xb, c.pos)) },
        r1: Vector { x: yb.x, y: yb.y, z: yb.z, w: spec_neg(spec_dot(yb, c.pos)) },
        r2: Vector { x: zb.x, y: zb.y, z: zb.z, w: spec_neg(spec_dot(zb, c.pos)) },
        r3: Vector { x: fx0(), y: fx0(), z: fx0(), w: fx1() },
    }
}

impl Camera {
    /// A camera at the origin, aimed at the origin, with a `+y` up vector.
    pub fn new() -> (r: Camera)
        ensures
            r.pos == (Vector { x: Fx { raw: 0i64 }, y: Fx { raw: 0i64 }, z: Fx { raw: 0i64 }, w: Fx { raw: SCALE } }),
            r.target == r.pos,
            r.up == (Vector { x: Fx { raw: 0i64 }, y: Fx { raw: SCALE }, z: Fx { raw: 0i64 }, w: Fx { raw: 0i64 } }),
    {
        Camera {
            pos: Vector::new(),
            target: Vector::new(),
            up: Vector { x: Fx { raw: 0 }, y: Fx { raw: SCALE }, z: Fx { raw: 0 }, w: Fx { raw: 0 } },
        }
    }

    /// A camera from its three defining vectors.
    pub fn from(pos: Vector, target: Vector, up: Vector) -> (r: Camera)
        ensures
            r == (Camera { pos, target, up }),
    {
        Camera { pos, target, up }
    }

    /// The view matrix of this camera.
    pub fn view_matrix(&self) -> (r: Matrix)
        ensures
            r == spec_view(*self),
    {
        let zb: Vector = self.pos.minus(self.target).normalised();
        let xb: Vector = Vector::cross_product(&self.up, &zb).normalised();
        let yb: Vector = Vector::cross_product(&zb, &xb);
        Matrix {
            r0: Vector { x: xb.x, y: xb.y, z: xb.z, w: crate::fixed::fx_neg(Vector::dot_product(&xb, &self.pos)) },
            r1: Vector { x: yb.x, y: yb.y, z: yb.z, w: crate::fixed::fx_neg(Vector::dot_product(&yb, &self.pos)) },
            r2: Vector { x: zb.x, y: zb.y, z: zb.z, w: crate::fixed::fx_neg(Vector::dot_product(&zb, &self.pos)) },
            r3: Vector { x: Fx { raw: 0 }, y: Fx { raw: 0 }, z: Fx { raw: 0 }, w: Fx { raw: SCALE } },
        }
    }
}

/// A triangular face: three vertex indices into the owning mesh, a
/// normal, and a colour.
#[derive(Clone, Copy, PartialEq, Eq, Structural, Debug)]
pub struct Face {
    pub v0: usize,
    pub v1: usize,
    pub v2: usize,
    pub colour: Colour,
    pub normal: Vector,
}

/// Whether a face's vertex indices all fall inside a vertex list of
/// length `n`.
pub open spec fn face_valid(f: Face, n: int) -> bool {
    f.v0 < n && f.v1 < n && f.v2 < n
}

/// Whether every face of a list is valid for a vertex list of length `n`.
pub open spec fn faces_valid(faces: Seq<Face>, n: int) -> bool {
    forall|i: int| 0 <= i < faces.len() ==> face_valid(#[trigger] faces[i], n)
}

impl Face {
    /// A face from its three vertex indices, normal and colour.
    pub fn from(v1: usize, v2: usize, v3: usize, normal: Vector, colour: Colour) -> (r: Face)
        ensures
            r == (Face { v0: v1, v1: v2, v2: v3, colour, normal }),
    {
        Face { v0: v1, v1: v2, v2: v3, colour, normal }
    }

    /// A face of three zero indices, a zero normal and full grey.
    pub fn new() -> (r: Face)
        ensures
            r.v0 == 0usize && r.v1 == 0usize && r.v2 == 0usize,
            r.colour == Colour::Grey(Fx { raw: SCALE }),
    {
        Face {
            v0: 0,
            v1: 0,
            v2: 0,
            colour: Colour::Grey(Fx { raw: SCALE }),
            normal: Vector::new(),
        }
    }
}

/// Why a piece of input geometry was rejected.
#[derive(Clone, Copy, PartialEq, Eq, Structural, Debug)]
pub enum MalformedGeometry {
    /// A face referred to a vertex or normal index outside the mesh.
    BadIndex,
    /// A numeric field of a directive could not be parsed.
    UnparsableField,
    /// A line began with a directive this format does not define.
    UnsupportedDirective,
}

/// A mesh: named geometry (vertices and faces) with a world-space pose.
/// The pose is a position and an axis-angle rotation vector whose
/// direction is the rotation axis and whose magnitude is the angle.
#[derive(Clone, Debug)]
pub struct Mesh {
    pub name: String,
    pub vertices: Vec<Vector>,
    pub faces: Vec<Face>,
    pub pos: Vector,
    pub rot: Vector,
}

impl Mesh {
    /// Every face of the mesh refers only to vertices the mesh holds.
    pub open spec fn wf(&self) -> bool {
        faces_valid(self.faces@, self.vertices@.len() as int)
    }

    /// An empty mesh with the given name, at the origin, unrotated.
    pub fn new(name: String) -> (r: Mesh)
        ensures
            r.name@ == name@,
            r.vertices@.len() == 0,
            r.faces@.len() == 0,
            r.pos == (Vector { x: Fx { raw: 0i64 }, y: Fx { raw: 0i64 }, z: Fx { raw: 0i64 }, w: Fx { raw: SCALE } }),
            r.rot == r.pos,
            r.wf(),
    {
        Mesh {
            name,
            vertices: Vec::new(),
            faces: Vec::new(),
            pos: Vector::new(),
            rot: Vector::new(),
        }
    }

    /// A mesh from parts, validating that every face index is in bounds;
    /// out-of-bounds geometry is rejected rather than stored.
    pub fn from(name: String, vertices: Vec<Vector>, faces: Vec<Face>, pos: Vector, rot: Vector)
        -> (r: Result<Mesh, MalformedGeometry>)
        ensures
            r is Ok <==> faces_valid(faces@, vertices@.len() as int),
            r matches Ok(m) ==> m.name@ == name@ && m.vertices@ == vertices@
                && m.faces@ == faces@ && m.pos == pos && m.rot == rot && m.wf(),
            r matches Err(e) ==> e == MalformedGeometry::BadIndex,
    {
        let n: usize = vertices.len();
        let mut i: usize = 0;
        while i < faces.len()
            invariant
                i <= faces@.len(),
                n == vertices@.len(),
                forall|j: int| 0 <= j < i ==> face_valid(#[trigger] faces@[j], n as int),
            decreases faces@.len() - i,
        {
            let f: &Face = &faces[i];
            if f.v0 >= n || f.v1 >= n || f.v2 >= n {
                return Err(MalformedGeometry::BadIndex);
            }
            i += 1;
        }
        Ok(Mesh { name, vertices, faces, pos, rot })
    }
}

} // verus!
