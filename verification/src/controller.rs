//! Thin controller decisions: dispatch on what the filesystem reported of a
//! resolved path, and the compute parts of the startup banner.

use vstd::prelude::*;

use crate::listing::{lower_byte, lower_seq};
use crate::paths::bytes_eq;

verus! {

/// What the filesystem reports a resolved path to be.
pub enum FsKind {
    /// A regular file.
    File,
    /// A directory.
    Dir,
    /// Anything else — a socket, a device, an undeterminable entry.
    Other,
}

/// What the browse controller does with a resolved path.
pub enum BrowseAction {
    /// Stream the file's bytes to the client.
    ServeFile,
    /// Enumerate, sort and render the directory.
    ListDir,
    /// Neither file nor directory: report the path missing with `404`.
    MissingKind,
}

/// Browse dispatch on the entity kind: files are served, directories
/// listed, anything else answered `404`.
pub fn browse_dispatch(kind: FsKind) -> (a: BrowseAction)
    ensures
        a == (match kind {
            FsKind::File => BrowseAction::ServeFile,
            FsKind::Dir => BrowseAction::ListDir,
            FsKind::Other => BrowseAction::MissingKind,
        }),
{
    match kind {
        FsKind::File => BrowseAction::ServeFile,
        FsKind::Dir => BrowseAction::ListDir,
        FsKind::Other => BrowseAction::MissingKind,
    }
}

/// `prefix` starts `s`.
pub open spec fn starts_with_seq(s: Seq<u8>, prefix: Seq<u8>) -> bool {
    prefix.len() <= s.len() && s.take(prefix.len() as int) == prefix
}

/// The interface names the startup banner hides: the loopback
/// pseudo-interfaces by exact name, and the common virtual-interface
/// families by lowercased name prefix.
pub open spec fn hidden_iface(name: Seq<u8>) -> bool {
    ||| name == seq![108u8, 111u8]  // lo
    ||| name == seq![108u8, 111u8, 48u8]  // lo0
    ||| starts_with_seq(lower_seq(name), seq![100u8, 111u8, 99u8, 107u8, 101u8, 114u8])  // docker
    ||| starts_with_seq(lower_seq(name), seq![118u8, 101u8, 116u8, 104u8])  // veth
    ||| starts_with_seq(lower_seq(name), seq![118u8, 109u8, 110u8, 101u8, 116u8])  // vmnet
    ||| starts_with_seq(lower_seq(name), seq![118u8, 105u8, 114u8, 98u8, 114u8])  // virbr
}

fn lower_starts_with(name: &[u8], prefix: &[u8]) -> (r: bool)
    ensures
        r == starts_with_seq(lower_seq(name@), prefix@),
{
    let pn = prefix.len();
    if pn > name.len() {
        return false;
    }
    let mut i: usize = 0;
    while i < pn
        invariant
            pn == prefix@.len(),
            pn <= name@.len(),
            i <= pn,
            forall|k: int| 0 <= k < i ==> lower_seq(name@)[k] == prefix@[k],
        decreases pn - i,
    {
        let c = if 65 <= name[i] && name[i] <= 90 {
            name[i] + 32
        } else {
            name[i]
        };
        proof {
            assert(c == lower_byte(name@[i as int]));
            assert(lower_seq(name@)[i as int] == lower_byte(name@[i as int]));
        }
        if c != prefix[i] {
            proof {
                assert(lower_seq(name@).take(pn as int)[i as int] != prefix@[i as int]);
            }
            return false;
        }
        i += 1;
    }
    proof {
        assert(lower_seq(name@).take(pn as int) =~= prefix@);
    }
    true
}

/// Whether an interface is hidden from the startup banner: loopback
/// pseudo-interfaces, and docker / veth / vmnet / virbr virtual interfaces.
pub fn interface_hidden(name: &[u8]) -> (r: bool)
    ensures
        r == hidden_iface(name@),
{
    let mut lo: Vec<u8> = Vec::new();
    lo.push(108);
    lo.push(111);
    proof {
        assert(lo@ =~= seq![108u8, 111u8]);
    }
    if bytes_eq(name, lo.as_slice()) {
        return true;
    }
    lo.push(48);
    proof {
        assert(lo@ =~= seq![108u8, 111u8, 48u8]);
    }
    if bytes_eq(name, lo.as_slice()) {
        return true;
    }
    let mut docker: Vec<u8> = Vec::new();
    docker.push(100);
    docker.push(111);
    docker.push(99);
    docker.push(107);
    docker.push(101);
    docker.push(114);
    proof {
        assert(docker@ =~= seq![100u8, 111u8, 99u8, 107u8, 101u8, 114u8]);
    }
    if lower_starts_with(name, docker.as_slice()) {
        return true;
    }
    let mut veth: Vec<u8> = Vec::new();
    veth.push(118);
    veth.push(101);
    veth.push(116);
    veth.push(104);
    proof {
        assert(veth@ =~= seq![118u8, 101u8, 116u8, 104u8]);
    }
    if lower_starts_with(name, veth.as_slice()) {
        return true;
    }
    let mut vmnet: Vec<u8> = Vec::new();
    vmnet.push(118);
    vmnet.push(109);
    vmnet.push(110);
    vmnet.push(101);
    vmnet.push(116);
    proof {
        assert(vmnet@ =~= seq![118u8, 109u8, 110u8, 101u8, 116u8]);
    }
    if lower_starts_with(name, vmnet.as_slice()) {
        return true;
    }
    let mut virbr: Vec<u8> = Vec::new();
    virbr.push(118);
    virbr.push(105);
    virbr.push(114);
    virbr.push(98);
    virbr.push(114);
    proof {
        assert(virbr@ =~= seq![118u8, 105u8, 114u8, 98u8, 114u8]);
    }
    lower_starts_with(name, virbr.as_slice())
}

/// The URL scheme shown in the startup banner: `https` with TLS, `http`
/// without.
pub fn scheme_label(tls: bool) -> (r: Vec<u8>)
    ensures
        tls ==> r@ == seq![104u8, 116u8, 116u8, 112u8, 115u8],
        !tls ==> r@ == seq![104u8, 116u8, 116u8, 112u8],
{
    let mut r: Vec<u8> = Vec::new();
    r.push(104);
    r.push(116);
    r.push(116);
    r.push(112);
    if tls {
        r.push(115);
        proof {
            assert(r@ =~= seq![104u8, 116u8, 116u8, 112u8, 115u8]);
        }
    } else {
        proof {
            assert(r@ =~= seq![104u8, 116u8, 116u8, 112u8]);
        }
    }
    r
}

} // verus!
