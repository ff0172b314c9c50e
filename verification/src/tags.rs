//! The grammar's literal tags, exact and case-sensitive.

use vstd::prelude::*;

verus! {

/// The bytes of `MD5Version`.
pub open spec fn tag_md5version() -> Seq<u8> {
    seq![77u8, 68u8, 53u8, 86u8, 101u8, 114u8, 115u8, 105u8, 111u8, 110u8]
}

/// The bytes of `MD5Version`, for the executable parsers.
pub fn arr_md5version() -> (r: [u8; 10])
    ensures
        r@ == tag_md5version(),
{
    let t: [u8; 10] = [77u8, 68u8, 53u8, 86u8, 101u8, 114u8, 115u8, 105u8, 111u8, 110u8];
    proof {
        assert(t@ =~= tag_md5version());
    }
    t
}

/// The bytes of `commandline`.
pub open spec fn tag_commandline() -> Seq<u8> {
    seq![99u8, 111u8, 109u8, 109u8, 97u8, 110u8, 100u8, 108u8, 105u8, 110u8, 101u8]
}

/// The bytes of `commandline`, for the executable parsers.
pub fn arr_commandline() -> (r: [u8; 11])
    ensures
        r@ == tag_commandline(),
{
    let t: [u8; 11] = [99u8, 111u8, 109u8, 109u8, 97u8, 110u8, 100u8, 108u8, 105u8, 110u8, 101u8];
    proof {
        assert(t@ =~= tag_commandline());
    }
    t
}

/// The bytes of `numJoints`.
pub open spec fn tag_numjoints() -> Seq<u8> {
    seq![110u8, 117u8, 109u8, 74u8, 111u8, 105u8, 110u8, 116u8, 115u8]
}

/// The bytes of `numJoints`, for the executable parsers.
pub fn arr_numjoints() -> (r: [u8; 9])
    ensures
        r@ == tag_numjoints(),
{
    let t: [u8; 9] = [110u8, 117u8, 109u8, 74u8, 111u8, 105u8, 110u8, 116u8, 115u8];
    proof {
        assert(t@ =~= tag_numjoints());
    }
    t
}

/// The bytes of `numMeshes`.
pub open spec fn tag_nummeshes() -> Seq<u8> {
    seq![110u8, 117u8, 109u8, 77u8, 101u8, 115u8, 104u8, 101u8, 115u8]
}

/// The bytes of `numMeshes`, for the executable parsers.
pub fn arr_nummeshes() -> (r: [u8; 9])
    ensures
        r@ == tag_nummeshes(),
{
    let t: [u8; 9] = [110u8, 117u8, 109u8, 77u8, 101u8, 115u8, 104u8, 101u8, 115u8];
    proof {
        assert(t@ =~= tag_nummeshes());
    }
    t
}

/// The bytes of `joints`.
pub open spec fn tag_joints() -> Seq<u8> {
    seq![106u8, 111u8, 105u8, 110u8, 116u8, 115u8]
}

/// The bytes of `joints`, for the executable parsers.
pub fn arr_joints() -> (r: [u8; 6])
    ensures
        r@ == tag_joints(),
{
    let t: [u8; 6] = [106u8, 111u8, 105u8, 110u8, 116u8, 115u8];
    proof {
        assert(t@ =~= tag_joints());
    }
    t
}

/// The bytes of `mesh`.
pub open spec fn tag_mesh() -> Seq<u8> {
    seq![109u8, 101u8, 115u8, 104u8]
}

/// The bytes of `mesh`, for the executable parsers.
pub fn arr_mesh() -> (r: [u8; 4])
    ensures
        r@ == tag_mesh(),
{
    let t: [u8; 4] = [109u8, 101u8, 115u8, 104u8];
    proof {
        assert(t@ =~= tag_mesh());
    }
    t
}

/// The bytes of `shader`.
pub open spec fn tag_shader() -> Seq<u8> {
    seq![115u8, 104u8, 97u8, 100u8, 101u8, 114u8]
}

/// The bytes of `shader`, for the executable parsers.
pub fn arr_shader() -> (r: [u8; 6])
    ensures
        r@ == tag_shader(),
{
    let t: [u8; 6] = [115u8, 104u8, 97u8, 100u8, 101u8, 114u8];
    proof {
        assert(t@ =~= tag_shader());
    }
    t
}

/// The bytes of `numverts`.
pub open spec fn tag_numverts() -> Seq<u8> {
    seq![110u8, 117u8, 109u8, 118u8, 101u8, 114u8, 116u8, 115u8]
}

/// The bytes of `numverts`, for the executable parsers.
pub fn arr_numverts() -> (r: [u8; 8])
    ensures
        r@ == tag_numverts(),
{
    let t: [u8; 8] = [110u8, 117u8, 109u8, 118u8, 101u8, 114u8, 116u8, 115u8];
    proof {
        assert(t@ =~= tag_numverts());
    }
    t
}

/// The bytes of `vert`.
pub open spec fn tag_vert() -> Seq<u8> {
    seq![118u8, 101u8, 114u8, 116u8]
}

/// The bytes of `vert`, for the executable parsers.
pub fn arr_vert() -> (r: [u8; 4])
    ensures
        r@ == tag_vert(),
{
    let t: [u8; 4] = [118u8, 101u8, 114u8, 116u8];
    proof {
        assert(t@ =~= tag_vert());
    }
    t
}

/// The bytes of `numtris`.
pub open spec fn tag_numtris() -> Seq<u8> {
    seq![110u8, 117u8, 109u8, 116u8, 114u8, 105u8, 115u8]
}

/// The bytes of `numtris`, for the executable parsers.
pub fn arr_numtris() -> (r: [u8; 7])
    ensures
        r@ == tag_numtris(),
{
    let t: [u8; 7] = [110u8, 117u8, 109u8, 116u8, 114u8, 105u8, 115u8];
    proof {
        assert(t@ =~= tag_numtris());
    }
    t
}

/// The bytes of `tri`.
pub open spec fn tag_tri() -> Seq<u8> {
    seq![116u8, 114u8, 105u8]
}

/// The bytes of `tri`, for the executable parsers.
pub fn arr_tri() -> (r: [u8; 3])
    ensures
        r@ == tag_tri(),
{
    let t: [u8; 3] = [116u8, 114u8, 105u8];
    proof {
        assert(t@ =~= tag_tri());
    }
    t
}

/// The bytes of `numweights`.
pub open spec fn tag_numweights() -> Seq<u8> {
    seq![110u8, 117u8, 109u8, 119u8, 101u8, 105u8, 103u8, 104u8, 116u8, 115u8]
}

/// The bytes of `numweights`, for the executable parsers.
pub fn arr_numweights() -> (r: [u8; 10])
    ensures
        r@ == tag_numweights(),
{
    let t: [u8; 10] = [110u8, 117u8, 109u8, 119u8, 101u8, 105u8, 103u8, 104u8, 116u8, 115u8];
    proof {
        assert(t@ =~= tag_numweights());
    }
    t
}

/// The bytes of `weight`.
pub open spec fn tag_weight() -> Seq<u8> {
    seq![119u8, 101u8, 105u8, 103u8, 104u8, 116u8]
}

/// The bytes of `weight`, for the executable parsers.
pub fn arr_weight() -> (r: [u8; 6])
    ensures
        r@ == tag_weight(),
{
    let t: [u8; 6] = [119u8, 101u8, 105u8, 103u8, 104u8, 116u8];
    proof {
        assert(t@ =~= tag_weight());
    }
    t
}

/// The bytes of `hierarchy`.
pub open spec fn tag_hierarchy() -> Seq<u8> {
    seq![104u8, 105u8, 101u8, 114u8, 97u8, 114u8, 99u8, 104u8, 121u8]
}

/// The bytes of `hierarchy`, for the executable parsers.
pub fn arr_hierarchy() -> (r: [u8; 9])
    ensures
        r@ == tag_hierarchy(),
{
    let t: [u8; 9] = [104u8, 105u8, 101u8, 114u8, 97u8, 114u8, 99u8, 104u8, 121u8];
    proof {
        assert(t@ =~= tag_hierarchy());
    }
    t
}

/// The bytes of `bounds`.
pub open spec fn tag_bounds() -> Seq<u8> {
    seq![98u8, 111u8, 117u8, 110u8, 100u8, 115u8]
}

/// The bytes of `bounds`, for the executable parsers.
pub fn arr_bounds() -> (r: [u8; 6])
    ensures
        r@ == tag_bounds(),
{
    let t: [u8; 6] = [98u8, 111u8, 117u8, 110u8, 100u8, 115u8];
    proof {
        assert(t@ =~= tag_bounds());
    }
    t
}

/// The bytes of `baseframe`.
pub open spec fn tag_baseframe() -> Seq<u8> {
    seq![98u8, 97u8, 115u8, 101u8, 102u8, 114u8, 97u8, 109u8, 101u8]
}

/// The bytes of `baseframe`, for the executable parsers.
pub fn arr_baseframe() -> (r: [u8; 9])
    ensures
        r@ == tag_baseframe(),
{
    let t: [u8; 9] = [98u8, 97u8, 115u8, 101u8, 102u8, 114u8, 97u8, 109u8, 101u8];
    proof {
        assert(t@ =~= tag_baseframe());
    }
    t
}

/// The bytes of `frame`.
pub open spec fn tag_frame() -> Seq<u8> {
    seq![102u8, 114u8, 97u8, 109u8, 101u8]
}

/// The bytes of `frame`, for the executable parsers.
pub fn arr_frame() -> (r: [u8; 5])
    ensures
        r@ == tag_frame(),
{
    let t: [u8; 5] = [102u8, 114u8, 97u8, 109u8, 101u8];
    proof {
        assert(t@ =~= tag_frame());
    }
    t
}

/// The bytes of `numFrames`.
pub open spec fn tag_numframes() -> Seq<u8> {
    seq![110u8, 117u8, 109u8, 70u8, 114u8, 97u8, 109u8, 101u8, 115u8]
}

/// The bytes of `numFrames`, for the executable parsers.
pub fn arr_numframes() -> (r: [u8; 9])
    ensures
        r@ == tag_numframes(),
{
    let t: [u8; 9] = [110u8, 117u8, 109u8, 70u8, 114u8, 97u8, 109u8, 101u8, 115u8];
    proof {
        assert(t@ =~= tag_numframes());
    }
    t
}

/// The bytes of `frameRate`.
pub open spec fn tag_framerate() -> Seq<u8> {
    seq![102u8, 114u8, 97u8, 109u8, 101u8, 82u8, 97u8, 116u8, 101u8]
}

/// The bytes of `frameRate`, for the executable parsers.
pub fn arr_framerate() -> (r: [u8; 9])
    ensures
        r@ == tag_framerate(),
{
    let t: [u8; 9] = [102u8, 114u8, 97u8, 109u8, 101u8, 82u8, 97u8, 116u8, 101u8];
    proof {
        assert(t@ =~= tag_framerate());
    }
    t
}

/// The bytes of `numAnimatedComponents`.
pub open spec fn tag_numanimatedcomponents() -> Seq<u8> {
    seq![110u8, 117u8, 109u8, 65u8, 110u8, 105u8, 109u8, 97u8, 116u8, 101u8, 100u8, 67u8, 111u8, 109u8, 112u8, 111u8, 110u8, 101u8, 110u8, 116u8, 115u8]
}

/// The bytes of `numAnimatedComponents`, for the executable parsers.
pub fn arr_numanimatedcomponents() -> (r: [u8; 21])
    ensures
        r@ == tag_numanimatedcomponents(),
{
    let t: [u8; 21] = [110u8, 117u8, 109u8, 65u8, 110u8, 105u8, 109u8, 97u8, 116u8, 101u8, 100u8, 67u8, 111u8, 109u8, 112u8, 111u8, 110u8, 101u8, 110u8, 116u8, 115u8];
    proof {
        assert(t@ =~= tag_numanimatedcomponents());
    }
    t
}

/// The bytes of `(`.
pub open spec fn tag_lparen() -> Seq<u8> {
    seq![40u8]
}

/// The bytes of `(`, for the executable parsers.
pub fn arr_lparen() -> (r: [u8; 1])
    ensures
        r@ == tag_lparen(),
{
    let t: [u8; 1] = [40u8];
    proof {
        assert(t@ =~= tag_lparen());
    }
    t
}

/// The bytes of `)`.
pub open spec fn tag_rparen() -> Seq<u8> {
    seq![41u8]
}

/// The bytes of `)`, for the executable parsers.
pub fn arr_rparen() -> (r: [u8; 1])
    ensures
        r@ == tag_rparen(),
{
    let t: [u8; 1] = [41u8];
    proof {
        assert(t@ =~= tag_rparen());
    }
    t
}

/// The bytes of `{`.
pub open spec fn tag_lbrace() -> Seq<u8> {
    seq![123u8]
}

/// The bytes of `{`, for the executable parsers.
pub fn arr_lbrace() -> (r: [u8; 1])
    ensures
        r@ == tag_lbrace(),
{
    let t: [u8; 1] = [123u8];
    proof {
        assert(t@ =~= tag_lbrace());
    }
    t
}

/// The bytes of `}`.
pub open spec fn tag_rbrace() -> Seq<u8> {
    seq![125u8]
}

/// The bytes of `}`, for the executable parsers.
pub fn arr_rbrace() -> (r: [u8; 1])
    ensures
        r@ == tag_rbrace(),
{
    let t: [u8; 1] = [125u8];
    proof {
        assert(t@ =~= tag_rbrace());
    }
    t
}

} // verus!
