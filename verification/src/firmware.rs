//! The multi-image firmware container: a parsed descriptor table over one
//! data buffer, the container file parser, and the descriptor-graph facts
//! the updater's driver relies on (every walk from the first descriptor
//! terminates and never visits a descriptor twice).

use vstd::prelude::*;

use crate::error::Error;
use crate::protocol::{spec_u16_from_be, spec_u32_from_be, u16_from_be, u32_from_be};

verus! {

/// One programmable slice of the image data, with its successor and error
/// links. `next_idx` is `0xFF` for the terminal descriptor, else the index
/// of the next one; `error_idx` is informational only.
#[derive(Debug, Clone, Copy, PartialEq, Eq, Structural)]
pub struct FirmwareImageDescriptor {
    pub image_type: u8,
    pub next_idx: u8,
    pub error_idx: u8,
    pub image_offset: u32,
    pub image_size: u32,
}

/// A parsed firmware container: the device identifiers it applies to, the
/// descriptor table, and the raw image data the descriptors point into.
#[derive(Debug)]
pub struct FirmwareImage {
    pub device_ids: Vec<u16>,
    pub descriptors: Vec<FirmwareImageDescriptor>,
    pub data: Vec<u8>,
}

/// The mathematical value of a `FirmwareImage`.
pub struct FirmwareImageView {
    pub device_ids: Seq<u16>,
    pub descriptors: Seq<FirmwareImageDescriptor>,
    pub data: Seq<u8>,
}

impl View for FirmwareImage {
    type V = FirmwareImageView;

    open spec fn view(&self) -> FirmwareImageView {
        FirmwareImageView {
            device_ids: self.device_ids@,
            descriptors: self.descriptors@,
            data: self.data@,
        }
    }
}

/// One descriptor is sound for a table of `num` descriptors over `data_len`
/// bytes: its slice lies inside the data, and its successor link is either
/// terminal or a valid index.
pub open spec fn desc_wf(d: FirmwareImageDescriptor, data_len: int, num: int) -> bool {
    &&& d.image_offset + d.image_size <= data_len
    &&& (d.next_idx == 0xFF || (d.next_idx as int) < num)
}

/// The walk from descriptor `i` reaches a terminal descriptor within `fuel`
/// visits. Since the successor of a descriptor is fixed, a walk that
/// terminates at all terminates within as many visits as there are
/// descriptors; a cycle never terminates under any fuel.
pub open spec fn terminates_from(
    descs: Seq<FirmwareImageDescriptor>,
    i: int,
    fuel: nat,
) -> bool
    decreases fuel,
{
    if fuel == 0 {
        false
    } else if !(0 <= i < descs.len()) {
        false
    } else if descs[i].next_idx == 0xFF {
        true
    } else {
        terminates_from(descs, descs[i].next_idx as int, (fuel - 1) as nat)
    }
}

impl FirmwareImageView {
    /// A well-formed image: a non-empty descriptor table of at most 256
    /// entries, every descriptor sound, and the walk from descriptor 0
    /// terminating.
    pub open spec fn wf(self) -> bool {
        &&& 0 < self.descriptors.len() <= 256
    &&& (forall|i: int|
            0 <= i < self.descriptors.len() ==> desc_wf(
                #[trigger] self.descriptors[i],
                self.data.len() as int,
                self.descriptors.len() as int,
            ))
    &&& terminates_from(self.descriptors, 0, self.descriptors.len() as nat)
    }
}

/// The descriptor reached after `k` steps of the walk that starts at
/// descriptor 0.
pub open spec fn visit_from(descs: Seq<FirmwareImageDescriptor>, i: int, k: nat) -> int
    decreases k,
{
    if k == 0 {
        i
    } else {
        descs[visit_from(descs, i, (k - 1) as nat)].next_idx as int
    }
}

/// The walk from `i` is still going after `k` steps: every descriptor seen
/// so far was a valid index and not terminal.
pub open spec fn active_from(descs: Seq<FirmwareImageDescriptor>, i: int, k: nat) -> bool
    decreases k,
{
    if k == 0 {
        true
    } else {
        let p = visit_from(descs, i, (k - 1) as nat);
        &&& active_from(descs, i, (k - 1) as nat)
        &&& 0 <= p < descs.len()
        &&& descs[p].next_idx != 0xFF
    }
}

/// A still-active walk keeps its termination certificate: after `k` steps
/// the remaining fuel `f - k` still certifies termination, so in particular
/// an active walk of `k` steps has `k < f`.
proof fn lemma_walk_shift(descs: Seq<FirmwareImageDescriptor>, i: int, f: nat, k: nat)
    requires
        terminates_from(descs, i, f),
        active_from(descs, i, k),
    ensures
        k < f,
        terminates_from(descs, visit_from(descs, i, k), (f - k) as nat),
    decreases k,
{
    if k == 0 {
    } else {
        lemma_active_mono(descs, i, k, (k - 1) as nat);
        lemma_walk_shift(descs, i, f, (k - 1) as nat);
        let p = visit_from(descs, i, (k - 1) as nat);
        assert(terminates_from(descs, p, (f - (k - 1)) as nat));
        assert(descs[p].next_idx != 0xFF);
        assert(terminates_from(descs, descs[p].next_idx as int, (f - k) as nat));
    }
}

/// A walk active for `k2` steps was active for any fewer steps.
proof fn lemma_active_mono(descs: Seq<FirmwareImageDescriptor>, i: int, k2: nat, k1: nat)
    requires
        k1 <= k2,
        active_from(descs, i, k2),
    ensures
        active_from(descs, i, k1),
    decreases k2,
{
    if k1 < k2 {
        lemma_active_mono(descs, i, (k2 - 1) as nat, k1);
    }
}

/// Walking `a + b` steps is walking `a` steps and then `b` steps.
proof fn lemma_visit_compose(descs: Seq<FirmwareImageDescriptor>, i: int, a: nat, b: nat)
    requires
        active_from(descs, i, (a + b) as nat),
    ensures
        visit_from(descs, i, (a + b) as nat) == visit_from(descs, visit_from(descs, i, a), b),
        active_from(descs, visit_from(descs, i, a), b),
    decreases b,
{
    if b == 0 {
    } else {
        lemma_active_mono(descs, i, (a + b) as nat, (a + b - 1) as nat);
        lemma_visit_compose(descs, i, a, (b - 1) as nat);
    }
}

/// A terminating walk never returns to its starting descriptor.
proof fn lemma_no_revisit_of_start(descs: Seq<FirmwareImageDescriptor>, i: int, f: nat, k: nat)
    requires
        terminates_from(descs, i, f),
        active_from(descs, i, k),
        k >= 1,
    ensures
        visit_from(descs, i, k) != i,
    decreases f,
{
    lemma_walk_shift(descs, i, f, k);
    if visit_from(descs, i, k) == i {
        lemma_no_revisit_of_start(descs, i, (f - k) as nat, k);
    }
}

/// Descriptor-traversal soundness: on a well-formed image, the walk from
/// descriptor 0 finishes within one step per descriptor, and no two steps
/// of it land on the same descriptor — each reachable descriptor is visited
/// at most once.
pub proof fn lemma_traversal_visits_once(img: FirmwareImageView, k1: nat, k2: nat)
    requires
        img.wf(),
        active_from(img.descriptors, 0, k2),
        k1 < k2,
    ensures
        k2 < img.descriptors.len(),
        visit_from(img.descriptors, 0, k1) != visit_from(img.descriptors, 0, k2),
{
    let descs = img.descriptors;
    let f = descs.len() as nat;
    lemma_walk_shift(descs, 0, f, k2);
    lemma_active_mono(descs, 0, k2, k1);
    lemma_walk_shift(descs, 0, f, k1);
    let p = visit_from(descs, 0, k1);
    lemma_visit_compose(descs, 0, k1, (k2 - k1) as nat);
    lemma_no_revisit_of_start(descs, p, (f - k1) as nat, (k2 - k1) as nat);
}

/// The container magic, `STNFWv` in ASCII.
pub open spec fn stnfw_magic() -> Seq<u8> {
    seq![0x53u8, 0x54u8, 0x4Eu8, 0x46u8, 0x57u8, 0x76u8]
}

/// The supported container version, ASCII `05`.
pub open spec fn stnfw_version() -> Seq<u8> {
    seq![0x30u8, 0x35u8]
}

/// Device identifier `j` of a container, two big-endian bytes starting at
/// offset 9.
pub open spec fn device_id_at(bytes: Seq<u8>, j: int) -> u16 {
    spec_u16_from_be(bytes[9 + 2 * j], bytes[10 + 2 * j])
}

/// Descriptor record `j` of a container whose records start at `base`:
/// kind, one reserved byte, the two links, then two big-endian words for
/// offset and size.
pub open spec fn descriptor_at(bytes: Seq<u8>, base: int, j: int) -> FirmwareImageDescriptor {
    FirmwareImageDescriptor {
        image_type: bytes[base + 12 * j],
        next_idx: bytes[base + 12 * j + 2],
        error_idx: bytes[base + 12 * j + 3],
        image_offset: spec_u32_from_be(
            bytes[base + 12 * j + 4],
            bytes[base + 12 * j + 5],
            bytes[base + 12 * j + 6],
            bytes[base + 12 * j + 7],
        ),
        image_size: spec_u32_from_be(
            bytes[base + 12 * j + 8],
            bytes[base + 12 * j + 9],
            bytes[base + 12 * j + 10],
            bytes[base + 12 * j + 11],
        ),
    }
}

/// What a container file parses to: after the magic, the version, and the
/// device-identifier table comes a descriptor count; a zero count stands
/// for one whole-file image, any other for that many descriptor records.
/// The remaining bytes are the image data.
pub open spec fn spec_parse_firmware(bytes: Seq<u8>) -> Option<FirmwareImageView> {
    if bytes.len() < 10 {
        None
    } else if bytes.subrange(0, 6) != stnfw_magic() {
        None
    } else if bytes.subrange(6, 8) != stnfw_version() {
        None
    } else {
        let n = bytes[8] as int;
        if bytes.len() < 10 + 2 * n {
            None
        } else {
            let m = bytes[9 + 2 * n] as int;
            let base = 10 + 2 * n;
            if m == 0 {
                if bytes.len() < 12 {
                    None
                } else {
                    Some(
                        FirmwareImageView {
                            device_ids: Seq::new(n as nat, |j: int| device_id_at(bytes, j)),
                            descriptors: seq![
                                FirmwareImageDescriptor {
                                    image_type: 0x00,
                                    next_idx: 0xFF,
                                    error_idx: 0x00,
                                    image_offset: 12,
                                    image_size: (((bytes.len() - 12) as int) % 0x100000000) as u32,
                                },
                            ],
                            data: bytes.skip(base),
                        },
                    )
                }
            } else if bytes.len() < base + 12 * m {
                None
            } else {
                Some(
                    FirmwareImageView {
                        device_ids: Seq::new(n as nat, |j: int| device_id_at(bytes, j)),
                        descriptors: Seq::new(m as nat, |j: int| descriptor_at(bytes, base, j)),
                        data: bytes.skip(base + 12 * m),
                    },
                )
            }
        }
    }
}

impl FirmwareImage {
    /// Parse a container file. Anything that does not fit the layout —
    /// short input, wrong magic, wrong version, truncated tables — is a
    /// `Deserialize` error.
    pub fn parse(bytes: &Vec<u8>) -> (r: Result<FirmwareImage, Error>)
        ensures
            match spec_parse_firmware(bytes@) {
                Some(v) => r matches Ok(img) && img@ == v,
                None => r matches Err(e) && e is Deserialize,
            },
    {
        if bytes.len() < 10 {
            return Err(Error::Deserialize);
        }
        if !(bytes[0] == 0x53 && bytes[1] == 0x54 && bytes[2] == 0x4E && bytes[3] == 0x46
            && bytes[4] == 0x57 && bytes[5] == 0x76) {
            proof {
                assert(bytes@.subrange(0, 6) != stnfw_magic()) by {
                    if bytes@.subrange(0, 6) == stnfw_magic() {
                        assert(bytes@[0] == stnfw_magic()[0] && bytes@[1] == stnfw_magic()[1]
                            && bytes@[2] == stnfw_magic()[2] && bytes@[3] == stnfw_magic()[3]
                            && bytes@[4] == stnfw_magic()[4] && bytes@[5] == stnfw_magic()[5]);
                    }
                }
            }
            return Err(Error::Deserialize);
        }
        proof {
            assert(bytes@.subrange(0, 6) =~= stnfw_magic());
        }
        if !(bytes[6] == 0x30 && bytes[7] == 0x35) {
            proof {
                assert(bytes@.subrange(6, 8) != stnfw_version()) by {
                    if bytes@.subrange(6, 8) == stnfw_version() {
                        assert(bytes@[6] == stnfw_version()[0] && bytes@[7] == stnfw_version()[1]);
                    }
                }
            }
            return Err(Error::Deserialize);
        }
        proof {
            assert(bytes@.subrange(6, 8) =~= stnfw_version());
        }
        let n = bytes[8] as usize;
        if bytes.len() < 10 + 2 * n {
            return Err(Error::Deserialize);
        }
        let mut device_ids: Vec<u16> = Vec::new();
        let mut j: usize = 0;
        while j < n
            invariant
                j <= n,
                n == bytes@[8] as int,
                bytes@.len() >= 10 + 2 * n,
                device_ids@.len() == j,
                forall|t: int| 0 <= t < j ==> device_ids@[t] == #[trigger] device_id_at(bytes@, t),
            decreases n - j,
        {
            device_ids.push(u16_from_be(bytes[9 + 2 * j], bytes[10 + 2 * j]));
            j = j + 1;
        }
        proof {
            assert(device_ids@ =~= Seq::new(n as nat, |t: int| device_id_at(bytes@, t)));
        }
        let base = 10 + 2 * n;
        let m = bytes[base - 1] as usize;
        assert(m == bytes@[9 + 2 * (n as int)] as int);
        if m == 0 {
            if bytes.len() < 12 {
                return Err(Error::Deserialize);
            }
            let whole = ((bytes.len() as u64 - 12) % 0x100000000) as u32;
            assert(whole as int == ((bytes@.len() - 12) as int) % 0x100000000);
            let mut descriptors: Vec<FirmwareImageDescriptor> = Vec::new();
            descriptors.push(
                FirmwareImageDescriptor {
                    image_type: 0x00,
                    next_idx: 0xFF,
                    error_idx: 0x00,
                    image_offset: 12,
                    image_size: whole,
                },
            );
            let data = copy_tail(bytes, base);
            let img = FirmwareImage { device_ids, descriptors, data };
            proof {
                let v = spec_parse_firmware(bytes@).unwrap();
                assert(img@.descriptors =~= v.descriptors);
                assert(img@.device_ids == v.device_ids && img@.data == v.data);
            }
            return Ok(img);
        }
        if bytes.len() < base + 12 * m {
            return Err(Error::Deserialize);
        }
        let mut descriptors: Vec<FirmwareImageDescriptor> = Vec::new();
        let mut j: usize = 0;
        while j < m
            invariant
                j <= m,
                m <= 255,
                base == 10 + 2 * (bytes@[8] as int),
                bytes@.len() >= base + 12 * m,
                descriptors@.len() == j,
                forall|t: int|
                    0 <= t < j ==> descriptors@[t] == #[trigger] descriptor_at(
                        bytes@,
                        base as int,
                        t,
                    ),
            decreases m - j,
        {
            let off = base + 12 * j;
            descriptors.push(
                FirmwareImageDescriptor {
                    image_type: bytes[off],
                    next_idx: bytes[off + 2],
                    error_idx: bytes[off + 3],
                    image_offset: u32_from_be(
                        bytes[off + 4],
                        bytes[off + 5],
                        bytes[off + 6],
                        bytes[off + 7],
                    ),
                    image_size: u32_from_be(
                        bytes[off + 8],
                        bytes[off + 9],
                        bytes[off + 10],
                        bytes[off + 11],
                    ),
                },
            );
            j = j + 1;
        }
        let data = copy_tail(bytes, base + 12 * m);
        let img = FirmwareImage { device_ids, descriptors, data };
        proof {
            let v = spec_parse_firmware(bytes@).unwrap();
            assert(img@.descriptors =~= v.descriptors);
            assert(img@.device_ids == v.device_ids && img@.data == v.data);
        }
        Ok(img)
    }

    /// Whether this image applies to the device with the given identifier.
    pub fn contains_device(&self, id: u16) -> (r: bool)
        ensures
            r == self@.device_ids.contains(id),
    {
        let mut j: usize = 0;
        while j < self.device_ids.len()
            invariant
                j <= self.device_ids@.len(),
                forall|t: int| 0 <= t < j ==> self.device_ids@[t] != id,
            decreases self.device_ids@.len() - j,
        {
            if self.device_ids[j] == id {
                return true;
            }
            j = j + 1;
        }
        false
    }

    /// Check every well-formedness condition of `wf`: table size, slice
    /// bounds, link bounds, and termination of the walk from descriptor 0.
    pub fn validate(&self) -> (r: bool)
        ensures
            r == self@.wf(),
    {
        let num = self.descriptors.len();
        if num == 0 || num > 256 {
            return false;
        }
        let mut i: usize = 0;
        while i < num
            invariant
                i <= num,
                num == self.descriptors@.len(),
                forall|t: int|
                    0 <= t < i ==> desc_wf(
                        #[trigger] self.descriptors@[t],
                        self.data@.len() as int,
                        self.descriptors@.len() as int,
                    ),
            decreases num - i,
        {
            let d = self.descriptors[i];
            if (d.image_offset as u64) + (d.image_size as u64) > (self.data.len() as u64) {
                return false;
            }
            if d.next_idx != 0xFF && (d.next_idx as usize) >= num {
                return false;
            }
            i = i + 1;
        }
        let mut at: usize = 0;
        let mut fuel: usize = num;
        loop
            invariant
                fuel <= num,
                0 < num <= 256,
                num == self.descriptors@.len(),
                forall|t: int|
                    0 <= t < num ==> desc_wf(
                        #[trigger] self.descriptors@[t],
                        self.data@.len() as int,
                        self.descriptors@.len() as int,
                    ),
                terminates_from(self.descriptors@, 0, num as nat) == terminates_from(
                    self.descriptors@,
                    at as int,
                    fuel as nat,
                ),
            decreases fuel,
        {
            if fuel == 0 {
                return false;
            }
            if at >= num {
                return false;
            }
            let nx = self.descriptors[at].next_idx;
            if nx == 0xFF {
                proof {
                    assert(terminates_from(self.descriptors@, at as int, fuel as nat));
                }
                return true;
            }
            proof {
                assert(terminates_from(self.descriptors@, at as int, fuel as nat)
                    == terminates_from(self.descriptors@, nx as int, (fuel - 1) as nat));
            }
            at = nx as usize;
            fuel = fuel - 1;
        }
    }
}

/// The bytes of `src` from `from` on, as a fresh vector.
fn copy_tail(src: &Vec<u8>, from: usize) -> (r: Vec<u8>)
    requires
        from <= src@.len(),
    ensures
        r@ == src@.skip(from as int),
{
    let mut r: Vec<u8> = Vec::new();
    let mut k: usize = from;
    while k < src.len()
        invariant
            from <= k <= src@.len(),
            r@ == src@.subrange(from as int, k as int),
        decreases src@.len() - k,
    {
        r.push(src[k]);
        proof {
            assert(r@ =~= src@.subrange(from as int, k + 1));
        }
        k = k + 1;
    }
    proof {
        assert(r@ =~= src@.skip(from as int));
    }
    r
}

} // verus!
