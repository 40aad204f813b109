//! GLSL source strings for the rendering backend.
//!
//! The engine draws nothing itself; a driver hands these two programs to its
//! graphics library. The contract of `Shaders::new` pins each source to the
//! text of its spec function, so a driver knows exactly what it compiles.

use vstd::prelude::*;

verus! {

/// Source of the vertex shader: passes each 2D position through unchanged.
pub open spec fn vert_source() -> Seq<char> {
    "
         #version 140

         in vec2 position;

         void main() {
            gl_Position = vec4(position, 0.0, 1.0);
         }
      "@
}

/// Source of the fragment shader: paints every fragment white.
pub open spec fn frag_source() -> Seq<char> {
    "
         #version 140

         out vec4 color;

         void main() {
            color = vec4(1.0, 1.0, 1.0, 1.0);
         }
      "@
}

/// The pair of shader sources a driver needs to build its program.
pub struct Shaders<'a> {
    pub vert: &'a str,
    pub frag: &'a str,
}

impl<'a> Shaders<'a> {
    /// Hands out the vertex and fragment shader sources.
    pub fn new() -> (s: Shaders<'a>)
        ensures
            s.vert@ == vert_source(),
            s.frag@ == frag_source(),
    {
        let vertex_shader_src = "
         #version 140

         in vec2 position;

         void main() {
            gl_Position = vec4(position, 0.0, 1.0);
         }
      ";
        let fragment_shader_src = "
         #version 140

         out vec4 color;

         void main() {
            color = vec4(1.0, 1.0, 1.0, 1.0);
         }
      ";
        Shaders { vert: vertex_shader_src, frag: fragment_shader_src }
    }
}

} // verus!
