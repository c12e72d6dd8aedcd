//! The preprocessor surface: the stateless `Classy` value a host instantiates,
//! its name, and the renderer-support query.  The document transformation
//! itself lives in the rewriter; a host feeds it one chapter's event sequence
//! at a time.

use vstd::prelude::*;

verus! {

/// The paragraph-annotation preprocessor.  It carries no state: every chapter
/// is transformed independently.
#[derive(Debug, Clone, Copy, PartialEq, Eq, Structural)]
pub struct Classy;

impl Classy {
    /// Creates the preprocessor.
    pub fn new() -> Classy {
        Classy
    }

    /// The name under which a host addresses this preprocessor.
    pub fn name(&self) -> (r: &'static str)
        ensures
            r@ == "classy"@,
    {
        "classy"
    }

    /// Renderer support: exactly the `html` renderer is supported.
    pub fn supports_renderer(&self, renderer: &str) -> (r: bool)
        ensures
            r == (renderer@ == "html"@),
    {
        proof {
            reveal_strlit("html");
        }
        let n = renderer.unicode_len();
        if n != 4 {
            return false;
        }
        let c0 = renderer.get_char(0);
        let c1 = renderer.get_char(1);
        let c2 = renderer.get_char(2);
        let c3 = renderer.get_char(3);
        let eq = c0 == 'h' && c1 == 't' && c2 == 'm' && c3 == 'l';
        proof {
            if eq {
                assert(renderer@ =~= "html"@);
            }
        }
        eq
    }
}

} // verus!
