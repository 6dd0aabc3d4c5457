//! Grid-system names and their command-line aliases.
//!
//! Each grid system is addressed by its full name or a short alias,
//! case-insensitively; the canonical class name is what the external
//! component's type registry expects.

use vstd::prelude::*;

verus! {

/// The grid systems the command-line tools can name.
#[derive(Clone, Copy, PartialEq, Eq, Structural, Debug)]
pub enum GridSystem {
    /// Icosahedral Snyder equal-area, aperture-3 hexagonal.
    Isea3h,
    /// Icosahedral Snyder equal-area, aperture-9 rhombic.
    Isea9r,
    /// Icosahedral vertex-oriented equal-area, aperture-3 hexagonal.
    Ivea3h,
    /// Icosahedral vertex-oriented equal-area, aperture-9 rhombic.
    Ivea9r,
    /// Rotated triacontahedral equal-area, aperture-3 hexagonal.
    Rtea3h,
    /// Rotated triacontahedral equal-area, aperture-9 rhombic.
    Rtea9r,
    /// The rHEALPix grid.
    RHealpix,
    /// The GNOSIS global grid.
    GnosisGlobalGrid,
}

/// The lower-case form of an ASCII byte.
pub open spec fn to_lower(c: u8) -> u8 {
    if 'A' as u8 <= c <= 'Z' as u8 {
        (c + 32) as u8
    } else {
        c
    }
}

/// Whether `a` and `b` are the same ASCII string, ignoring case.
pub open spec fn spec_eq_ignore_case(a: Seq<u8>, b: Seq<u8>) -> bool {
    a.len() == b.len() && forall|i: int| 0 <= i < a.len() ==> to_lower(#[trigger] a[i]) == to_lower(
        b[i],
    )
}

/// The bytes of "isea3h".
pub open spec fn name_isea3h() -> Seq<u8> {
    seq!['i' as u8, 's' as u8, 'e' as u8, 'a' as u8, '3' as u8, 'h' as u8]
}

/// The bytes of "i3h".
pub open spec fn alias_i3h() -> Seq<u8> {
    seq!['i' as u8, '3' as u8, 'h' as u8]
}

/// The bytes of "isea9r".
pub open spec fn name_isea9r() -> Seq<u8> {
    seq!['i' as u8, 's' as u8, 'e' as u8, 'a' as u8, '9' as u8, 'r' as u8]
}

/// The bytes of "i9r".
pub open spec fn alias_i9r() -> Seq<u8> {
    seq!['i' as u8, '9' as u8, 'r' as u8]
}

/// The bytes of "ivea3h".
pub open spec fn name_ivea3h() -> Seq<u8> {
    seq!['i' as u8, 'v' as u8, 'e' as u8, 'a' as u8, '3' as u8, 'h' as u8]
}

/// The bytes of "v3h".
pub open spec fn alias_v3h() -> Seq<u8> {
    seq!['v' as u8, '3' as u8, 'h' as u8]
}

/// The bytes of "ivea9r".
pub open spec fn name_ivea9r() -> Seq<u8> {
    seq!['i' as u8, 'v' as u8, 'e' as u8, 'a' as u8, '9' as u8, 'r' as u8]
}

/// The bytes of "v9r".
pub open spec fn alias_v9r() -> Seq<u8> {
    seq!['v' as u8, '9' as u8, 'r' as u8]
}

/// The bytes of "rtea3h".
pub open spec fn name_rtea3h() -> Seq<u8> {
    seq!['r' as u8, 't' as u8, 'e' as u8, 'a' as u8, '3' as u8, 'h' as u8]
}

/// The bytes of "r3h".
pub open spec fn alias_r3h() -> Seq<u8> {
    seq!['r' as u8, '3' as u8, 'h' as u8]
}

/// The bytes of "rtea9r".
pub open spec fn name_rtea9r() -> Seq<u8> {
    seq!['r' as u8, 't' as u8, 'e' as u8, 'a' as u8, '9' as u8, 'r' as u8]
}

/// The bytes of "r9r".
pub open spec fn alias_r9r() -> Seq<u8> {
    seq!['r' as u8, '9' as u8, 'r' as u8]
}

/// The bytes of "rhealpix".
pub open spec fn name_rhealpix() -> Seq<u8> {
    seq!['r' as u8, 'h' as u8, 'e' as u8, 'a' as u8, 'l' as u8, 'p' as u8, 'i' as u8, 'x' as u8]
}

/// The bytes of "rhp".
pub open spec fn alias_rhp() -> Seq<u8> {
    seq!['r' as u8, 'h' as u8, 'p' as u8]
}

/// The bytes of "gnosisglobalgrid".
pub open spec fn name_gnosisglobalgrid() -> Seq<u8> {
    seq![
        'g' as u8,
        'n' as u8,
        'o' as u8,
        's' as u8,
        'i' as u8,
        's' as u8,
        'g' as u8,
        'l' as u8,
        'o' as u8,
        'b' as u8,
        'a' as u8,
        'l' as u8,
        'g' as u8,
        'r' as u8,
        'i' as u8,
        'd' as u8,
    ]
}

/// The bytes of "ggg".
pub open spec fn alias_ggg() -> Seq<u8> {
    seq!['g' as u8, 'g' as u8, 'g' as u8]
}

/// The grid system that the name or alias `s` denotes, if any,
/// compared case-insensitively.
pub open spec fn spec_grid_system_of(s: Seq<u8>) -> Option<GridSystem> {
    if spec_eq_ignore_case(s, name_isea3h()) || spec_eq_ignore_case(s, alias_i3h()) {
        Some(GridSystem::Isea3h)
    } else if spec_eq_ignore_case(s, name_isea9r()) || spec_eq_ignore_case(s, alias_i9r()) {
        Some(GridSystem::Isea9r)
    } else if spec_eq_ignore_case(s, name_ivea3h()) || spec_eq_ignore_case(s, alias_v3h()) {
        Some(GridSystem::Ivea3h)
    } else if spec_eq_ignore_case(s, name_ivea9r()) || spec_eq_ignore_case(s, alias_v9r()) {
        Some(GridSystem::Ivea9r)
    } else if spec_eq_ignore_case(s, name_rtea3h()) || spec_eq_ignore_case(s, alias_r3h()) {
        Some(GridSystem::Rtea3h)
    } else if spec_eq_ignore_case(s, name_rtea9r()) || spec_eq_ignore_case(s, alias_r9r()) {
        Some(GridSystem::Rtea9r)
    } else if spec_eq_ignore_case(s, name_rhealpix()) || spec_eq_ignore_case(s, alias_rhp()) {
        Some(GridSystem::RHealpix)
    } else if spec_eq_ignore_case(s, name_gnosisglobalgrid()) || spec_eq_ignore_case(
        s,
        alias_ggg(),
    ) {
        Some(GridSystem::GnosisGlobalGrid)
    } else {
        None
    }
}

/// The lower-case form of an ASCII byte.
fn lower_byte(c: u8) -> (r: u8)
    ensures
        r == to_lower(c),
{
    if c >= 'A' as u8 && c <= 'Z' as u8 {
        c + 32
    } else {
        c
    }
}

/// Whether `a` and `b` are the same ASCII string, ignoring case.
pub fn eq_ignore_case(a: &[u8], b: &[u8]) -> (r: bool)
    ensures
        r == spec_eq_ignore_case(a@, b@),
{
    if a.len() != b.len() {
        return false;
    }
    let n = a.len();
    for i in 0..n
        invariant
            n == a@.len() == b@.len(),
            forall|j: int| 0 <= j < i ==> to_lower(#[trigger] a@[j]) == to_lower(b@[j]),
    {
        if lower_byte(a[i]) != lower_byte(b[i]) {
            return false;
        }
    }
    true
}

/// The grid system that the name or alias `s` denotes, if any,
/// compared case-insensitively.
pub fn grid_system_from_name(s: &[u8]) -> (r: Option<GridSystem>)
    ensures
        r == spec_grid_system_of(s@),
{
    let isea3h = vec!['i' as u8, 's' as u8, 'e' as u8, 'a' as u8, '3' as u8, 'h' as u8];
    let i3h = vec!['i' as u8, '3' as u8, 'h' as u8];
    let isea9r = vec!['i' as u8, 's' as u8, 'e' as u8, 'a' as u8, '9' as u8, 'r' as u8];
    let i9r = vec!['i' as u8, '9' as u8, 'r' as u8];
    let ivea3h = vec!['i' as u8, 'v' as u8, 'e' as u8, 'a' as u8, '3' as u8, 'h' as u8];
    let v3h = vec!['v' as u8, '3' as u8, 'h' as u8];
    let ivea9r = vec!['i' as u8, 'v' as u8, 'e' as u8, 'a' as u8, '9' as u8, 'r' as u8];
    let v9r = vec!['v' as u8, '9' as u8, 'r' as u8];
    let rtea3h = vec!['r' as u8, 't' as u8, 'e' as u8, 'a' as u8, '3' as u8, 'h' as u8];
    let r3h = vec!['r' as u8, '3' as u8, 'h' as u8];
    let rtea9r = vec!['r' as u8, 't' as u8, 'e' as u8, 'a' as u8, '9' as u8, 'r' as u8];
    let r9r = vec!['r' as u8, '9' as u8, 'r' as u8];
    let rhealpix = vec![
        'r' as u8,
        'h' as u8,
        'e' as u8,
        'a' as u8,
        'l' as u8,
        'p' as u8,
        'i' as u8,
        'x' as u8,
    ];
    let rhp = vec!['r' as u8, 'h' as u8, 'p' as u8];
    let gnosis = vec![
        'g' as u8,
        'n' as u8,
        'o' as u8,
        's' as u8,
        'i' as u8,
        's' as u8,
        'g' as u8,
        'l' as u8,
        'o' as u8,
        'b' as u8,
        'a' as u8,
        'l' as u8,
        'g' as u8,
        'r' as u8,
        'i' as u8,
        'd' as u8,
    ];
    let ggg = vec!['g' as u8, 'g' as u8, 'g' as u8];
    proof {
        assert(isea3h@ =~= name_isea3h());
        assert(i3h@ =~= alias_i3h());
        assert(isea9r@ =~= name_isea9r());
        assert(i9r@ =~= alias_i9r());
        assert(ivea3h@ =~= name_ivea3h());
        assert(v3h@ =~= alias_v3h());
        assert(ivea9r@ =~= name_ivea9r());
        assert(v9r@ =~= alias_v9r());
        assert(rtea3h@ =~= name_rtea3h());
        assert(r3h@ =~= alias_r3h());
        assert(rtea9r@ =~= name_rtea9r());
        assert(r9r@ =~= alias_r9r());
        assert(rhealpix@ =~= name_rhealpix());
        assert(rhp@ =~= alias_rhp());
        assert(gnosis@ =~= name_gnosisglobalgrid());
        assert(ggg@ =~= alias_ggg());
    }
    if eq_ignore_case(s, isea3h.as_slice()) || eq_ignore_case(s, i3h.as_slice()) {
        Some(GridSystem::Isea3h)
    } else if eq_ignore_case(s, isea9r.as_slice()) || eq_ignore_case(s, i9r.as_slice()) {
        Some(GridSystem::Isea9r)
    } else if eq_ignore_case(s, ivea3h.as_slice()) || eq_ignore_case(s, v3h.as_slice()) {
        Some(GridSystem::Ivea3h)
    } else if eq_ignore_case(s, ivea9r.as_slice()) || eq_ignore_case(s, v9r.as_slice()) {
        Some(GridSystem::Ivea9r)
    } else if eq_ignore_case(s, rtea3h.as_slice()) || eq_ignore_case(s, r3h.as_slice()) {
        Some(GridSystem::Rtea3h)
    } else if eq_ignore_case(s, rtea9r.as_slice()) || eq_ignore_case(s, r9r.as_slice()) {
        Some(GridSystem::Rtea9r)
    } else if eq_ignore_case(s, rhealpix.as_slice()) || eq_ignore_case(s, rhp.as_slice()) {
        Some(GridSystem::RHealpix)
    } else if eq_ignore_case(s, gnosis.as_slice()) || eq_ignore_case(s, ggg.as_slice()) {
        Some(GridSystem::GnosisGlobalGrid)
    } else {
        None
    }
}

impl GridSystem {
    /// The canonical class name under which the external component's
    /// type registry knows this grid system.
    pub fn class_name(&self) -> (r: &'static str)
        ensures
            *self == GridSystem::Isea3h ==> r@ == "ISEA3H"@,
            *self == GridSystem::Isea9r ==> r@ == "ISEA9R"@,
            *self == GridSystem::Ivea3h ==> r@ == "IVEA3H"@,
            *self == GridSystem::Ivea9r ==> r@ == "IVEA9R"@,
            *self == GridSystem::Rtea3h ==> r@ == "RTEA3H"@,
            *self == GridSystem::Rtea9r ==> r@ == "RTEA9R"@,
            *self == GridSystem::RHealpix ==> r@ == "rHEALPix"@,
            *self == GridSystem::GnosisGlobalGrid ==> r@ == "GNOSISGlobalGrid"@,
    {
        match self {
            GridSystem::Isea3h => "ISEA3H",
            GridSystem::Isea9r => "ISEA9R",
            GridSystem::Ivea3h => "IVEA3H",
            GridSystem::Ivea9r => "IVEA9R",
            GridSystem::Rtea3h => "RTEA3H",
            GridSystem::Rtea9r => "RTEA9R",
            GridSystem::RHealpix => "rHEALPix",
            GridSystem::GnosisGlobalGrid => "GNOSISGlobalGrid",
        }
    }
}

} // verus!
