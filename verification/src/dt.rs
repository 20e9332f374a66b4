//! Flattened device-tree parsing.
//!
//! Firmware hands the primary core a device-tree blob; this module
//! reads just enough of it for the boot core: the header, the
//! reserved-memory map, and the structure block far enough to find
//! root-level properties — in particular the memory ranges that seed
//! the physical allocator.
//!
//! Every reader is specified against the byte sequence of the blob:
//! the token scan, the property searches and the register-cell
//! decoding are each the executable image of a recursive
//! specification over those bytes.

use crate::pa::PhysicalAddress;
use vstd::prelude::*;
use vstd::string::StringSliceAdditionalSpecFns;
use vstd::string::StrSliceExecFns;

verus! {

/// A 32-bit big-endian value at `off`.
pub open spec fn spec_be32(data: Seq<u8>, off: int) -> int {
    data[off] * 0x100_0000 + data[off + 1] * 0x1_0000 + data[off + 2] * 0x100 + data[off + 3]
}

/// A 64-bit big-endian value at `off`.
pub open spec fn spec_be64(data: Seq<u8>, off: int) -> int {
    spec_be32(data, off) * 0x1_0000_0000 + spec_be32(data, off + 4)
}

/// Length of the NUL-terminated string at `off`: bytes up to the
/// first NUL, or to the end of the blob if none comes.
pub open spec fn spec_strlen(data: Seq<u8>, off: int) -> int
    decreases data.len() - off,
{
    if off < 0 || off >= data.len() {
        0
    } else if data[off] == 0 {
        0
    } else {
        1 + spec_strlen(data, off + 1)
    }
}

fn read_be32(data: &Vec<u8>, off: usize) -> (r: u32)
    requires
        off + 4 <= data@.len(),
    ensures
        r == spec_be32(data@, off as int),
{
    let n = data.len();
    let b0 = data[off];
    let b1 = data[off + 1];
    let b2 = data[off + 2];
    let b3 = data[off + 3];
    proof {
        assert(((b0 as u32) << 24 | (b1 as u32) << 16 | (b2 as u32) << 8 | (b3 as u32)) == b0
            * 0x100_0000 + b1 * 0x1_0000 + b2 * 0x100 + b3) by (bit_vector);
    }
    (b0 as u32) << 24 | (b1 as u32) << 16 | (b2 as u32) << 8 | (b3 as u32)
}

fn read_be64(data: &Vec<u8>, off: usize) -> (r: u64)
    requires
        off + 8 <= data@.len(),
    ensures
        r == spec_be64(data@, off as int),
{
    let n = data.len();
    let hi = read_be32(data, off);
    let lo = read_be32(data, off + 4);
    proof {
        let h = hi;
        let l = lo;
        assert(((h as u64) << 32 | (l as u64)) == h * 0x1_0000_0000 + l) by (bit_vector);
    }
    (hi as u64) << 32 | (lo as u64)
}

fn strlen_at(data: &Vec<u8>, off: usize) -> (r: usize)
    ensures
        r == spec_strlen(data@, off as int),
{
    let mut l: usize = 0;
    loop
        invariant
            spec_strlen(data@, off as int) == l + spec_strlen(data@, off + l as int),
            off + l <= usize::MAX,
        ensures
            l == spec_strlen(data@, off as int),
        decreases data@.len() - off - l,
    {
        if off >= data.len() || off + l >= data.len() || l >= data.len() {
            proof {
                assert(spec_strlen(data@, off + l as int) == 0);
            }
            break ;
        }
        if data[off + l] == 0 {
            proof {
                assert(spec_strlen(data@, off + l as int) == 0);
            }
            break ;
        }
        l = l + 1;
    }
    l
}

/// A name of a device-tree node, with or without its unit address.
#[derive(Debug, Clone, Copy, PartialEq, Eq)]
pub struct NodeName<'a>(pub &'a str);

/// Position of the first `@` in a name, if any.
pub open spec fn spec_first_at(s: Seq<char>, i: int) -> Option<int>
    decreases s.len() - i,
{
    if i < 0 || i >= s.len() {
        None
    } else if s[i] == '@' {
        Some(i)
    } else {
        spec_first_at(s, i + 1)
    }
}

impl<'a> NodeName<'a> {
    pub fn new(name: &'a str) -> (r: Self)
        ensures
            r.0@ == name@,
    {
        NodeName(name)
    }

    pub fn as_str(&'a self) -> (r: &'a str)
        ensures
            r@ == self.0@,
    {
        self.0
    }

    /// The name with the unit address stripped: everything before the
    /// first `@`, or the whole name when there is none.
    pub fn without_unit(&self) -> (r: Self)
        ensures
            match spec_first_at(self.0@, 0) {
                Some(i) => r.0@ == self.0@.subrange(0, i),
                None => r.0@ == self.0@,
            },
    {
        let n = self.0.unicode_len();
        let mut i: usize = 0;
        while i < n
            invariant
                n == self.0@.len(),
                0 <= i <= n,
                spec_first_at(self.0@, 0) == spec_first_at(self.0@, i as int),
            decreases n - i,
        {
            if self.0.get_char(i) == '@' {
                return NodeName(self.0.substring_char(0, i));
            }
            i = i + 1;
        }
        NodeName(self.0)
    }
}

/// A name of a device-tree property.
#[derive(Debug, Clone, Copy, PartialEq, Eq)]
pub struct PropName<'a>(pub &'a str);

impl<'a> PropName<'a> {
    pub fn new(name: &'a str) -> (r: Self)
        ensures
            r.0@ == name@,
    {
        PropName(name)
    }

    pub fn as_str(&'a self) -> (r: &'a str)
        ensures
            r@ == self.0@,
    {
        self.0
    }
}

/// One token of the flattened structure block.  Names and property
/// data stay in the blob; a token carries their offsets.
#[derive(Debug, Clone, Copy, PartialEq, Eq, Structural)]
pub enum Token {
    /// A node opens; its NUL-terminated name sits at `name_off`.
    BeginNode { name_off: usize, name_len: usize },
    /// The innermost open node closes.
    EndNode,
    /// A property of the innermost open node: its name sits in the
    /// strings block, its value in the structure block.
    Prop { name_off: usize, name_len: usize, data_off: usize, data_len: usize },
}

/// Token type codes of the flattened format.
pub const FDT_BEGIN_NODE: u32 = 1;

pub const FDT_END_NODE: u32 = 2;

pub const FDT_PROP: u32 = 3;

pub const FDT_NOP: u32 = 4;

pub const FDT_END: u32 = 9;

/// The token (and next scan position) at cell `index` of the structure
/// block, skipping NOP cells; `None` at the end marker, a malformed
/// cell, or the edge of the blob.
pub open spec fn spec_next_token(data: Seq<u8>, soff: int, stroff: int, index: int) -> Option<
    (Token, int),
>
    decreases data.len() - (soff + index * 4),
{
    if soff < 0 || stroff < 0 || index < 0 || soff + index * 4 + 4 > data.len() {
        None
    } else {
        let t = spec_be32(data, soff + index * 4);
        if t == FDT_NOP {
            spec_next_token(data, soff, stroff, index + 1)
        } else if t == FDT_BEGIN_NODE {
            let name_off = soff + index * 4 + 4;
            let len = spec_strlen(data, name_off);
            Some(
                (
                    Token::BeginNode { name_off: name_off as usize, name_len: len as usize },
                    index + 1 + (len + 4) / 4,
                ),
            )
        } else if t == FDT_PROP {
            if soff + index * 4 + 12 > data.len() || stroff + spec_be32(data, soff + index * 4 + 8)
                > 0x1000_0000 {
                None
            } else {
                let data_len = spec_be32(data, soff + index * 4 + 4);
                let name_off = stroff + spec_be32(data, soff + index * 4 + 8);
                let name_len = spec_strlen(data, name_off);
                Some(
                    (
                        Token::Prop {
                            name_off: name_off as usize,
                            name_len: name_len as usize,
                            data_off: (soff + index * 4 + 12) as usize,
                            data_len: data_len as usize,
                        },
                        index + 3 + (data_len + 3) / 4,
                    ),
                )
            }
        } else if t == FDT_END_NODE {
            Some((Token::EndNode, index + 1))
        } else {
            None
        }
    }
}

/// A string length is never negative.
pub proof fn lemma_strlen_nonneg(data: Seq<u8>, off: int)
    ensures
        spec_strlen(data, off) >= 0,
    decreases data.len() - off,
{
    if 0 <= off < data.len() && data[off] != 0 {
        lemma_strlen_nonneg(data, off + 1);
    }
}

/// A string length never runs past the end of the blob.
pub proof fn lemma_strlen_le(data: Seq<u8>, off: int)
    requires
        0 <= off,
    ensures
        off + spec_strlen(data, off) <= data.len() || spec_strlen(data, off) == 0,
    decreases data.len() - off,
{
    if 0 <= off < data.len() && data[off] != 0 {
        lemma_strlen_le(data, off + 1);
        lemma_strlen_nonneg(data, off + 1);
    }
}

/// A successful scan step always moves forward.
pub proof fn lemma_next_token_advances(data: Seq<u8>, soff: int, stroff: int, index: int)
    requires
        spec_next_token(data, soff, stroff, index) is Some,
    ensures
        spec_next_token(data, soff, stroff, index).unwrap().1 > index,
    decreases data.len() - (soff + index * 4),
{
    if soff >= 0 && stroff >= 0 && index >= 0 && soff + index * 4 + 4 <= data.len() {
        let t = spec_be32(data, soff + index * 4);
        if t == FDT_NOP {
            lemma_next_token_advances(data, soff, stroff, index + 1);
        } else if t == FDT_BEGIN_NODE {
            let len = spec_strlen(data, soff + index * 4 + 4);
            lemma_strlen_nonneg(data, soff + index * 4 + 4);
            vstd::arithmetic::div_mod::lemma_div_is_ordered(4, len + 4, 4);
        } else if t == FDT_PROP && soff + index * 4 + 12 <= data.len() {
            let data_len = spec_be32(data, soff + index * 4 + 4);
            vstd::arithmetic::div_mod::lemma_div_is_ordered(0, data_len + 3, 4);
        }
    }
}

/// The whole token stream from cell `index` on.
pub open spec fn spec_token_seq(data: Seq<u8>, soff: int, stroff: int, index: int) -> Seq<Token>
    decreases data.len() - index,
{
    match spec_next_token(data, soff, stroff, index) {
        None => Seq::empty(),
        Some((t, index2)) => {
            if index < index2 <= data.len() {
                seq![t] + spec_token_seq(data, soff, stroff, index2)
            } else {
                seq![t]
            }
        },
    }
}

/// The fixed 40-byte header of a flattened device-tree blob, with
/// every field already decoded from its big-endian wire form.
#[derive(Debug, Clone, Copy, PartialEq, Eq, Structural)]
pub struct Header {
    magic: u32,
    totalsize: u32,
    off_dt_struct: u32,
    off_dt_strings: u32,
    off_mem_rsvmap: u32,
    version: u32,
    last_comp_version: u32,
    boot_cpuid_phys: u32,
    size_dt_strings: u32,
    size_dt_struct: u32,
}

/// The reserved-memory entries at `off`: big-endian (base, size)
/// pairs, up to the first zero-sized entry or the edge of the blob.
pub open spec fn spec_rsv_list(data: Seq<u8>, off: int) -> Seq<(u64, u64)>
    decreases data.len() - off,
{
    if off < 0 || off + 16 > data.len() {
        Seq::empty()
    } else {
        let base = spec_be64(data, off);
        let size = spec_be64(data, off + 8);
        if size == 0 {
            Seq::empty()
        } else {
            seq![(base as u64, size as u64)] + spec_rsv_list(data, off + 16)
        }
    }
}

impl Header {
    pub const MAGIC: u32 = 0xD00DFEED;

    pub const CURRENT_VERSION: u32 = 0x11;

    pub const COMPATIBLE_VERSION: u32 = 0x10;

    pub closed spec fn spec_magic(self) -> u32 {
        self.magic
    }

    pub closed spec fn spec_total_size(self) -> int {
        self.totalsize as int
    }

    pub closed spec fn spec_off_dt_struct(self) -> int {
        self.off_dt_struct as int
    }

    pub closed spec fn spec_off_dt_strings(self) -> int {
        self.off_dt_strings as int
    }

    pub closed spec fn spec_off_mem_rsvmap(self) -> int {
        self.off_mem_rsvmap as int
    }

    pub closed spec fn spec_version(self) -> u32 {
        self.version
    }

    pub closed spec fn spec_last_comp_version(self) -> u32 {
        self.last_comp_version
    }

    /// The header decodes the first 40 bytes of `data`.
    pub open spec fn matches(self, data: Seq<u8>) -> bool {
        &&& data.len() >= 40
        &&& self.spec_magic() == spec_be32(data, 0)
        &&& self.spec_total_size() == spec_be32(data, 4)
        &&& self.spec_off_dt_struct() == spec_be32(data, 8)
        &&& self.spec_off_dt_strings() == spec_be32(data, 12)
        &&& self.spec_off_mem_rsvmap() == spec_be32(data, 16)
        &&& self.spec_version() == spec_be32(data, 20)
        &&& self.spec_last_comp_version() == spec_be32(data, 24)
    }

    /// Decodes a header from the front of a blob.
    pub fn parse(data: &Vec<u8>) -> (r: Option<Header>)
        ensures
            r is Some <==> data@.len() >= 40,
            r matches Some(h) ==> h.matches(data@),
    {
        if data.len() < 40 {
            return None;
        }
        Some(
            Header {
                magic: read_be32(data, 0),
                totalsize: read_be32(data, 4),
                off_dt_struct: read_be32(data, 8),
                off_dt_strings: read_be32(data, 12),
                off_mem_rsvmap: read_be32(data, 16),
                version: read_be32(data, 20),
                last_comp_version: read_be32(data, 24),
                boot_cpuid_phys: read_be32(data, 28),
                size_dt_strings: read_be32(data, 32),
                size_dt_struct: read_be32(data, 36),
            },
        )
    }

    /// A header this parser accepts: right magic, current version,
    /// compatible with the version this reader implements.
    pub fn is_valid(&self) -> (r: bool)
        ensures
            r == (self.spec_magic() == 0xD00DFEED && self.spec_version() == 0x11
                && self.spec_last_comp_version() == 0x10),
    {
        self.magic == Self::MAGIC && self.version == Self::CURRENT_VERSION
            && self.last_comp_version == Self::COMPATIBLE_VERSION
    }

    pub fn magic(&self) -> (r: u32)
        ensures
            r == self.spec_magic(),
    {
        self.magic
    }

    pub fn total_size(&self) -> (r: usize)
        requires
            self.spec_total_size() <= usize::MAX,
        ensures
            r == self.spec_total_size(),
    {
        self.totalsize as usize
    }

    pub fn off_dt_struct(&self) -> (r: usize)
        requires
            self.spec_off_dt_struct() <= usize::MAX,
        ensures
            r == self.spec_off_dt_struct(),
    {
        self.off_dt_struct as usize
    }

    pub fn off_dt_strings(&self) -> (r: usize)
        requires
            self.spec_off_dt_strings() <= usize::MAX,
        ensures
            r == self.spec_off_dt_strings(),
    {
        self.off_dt_strings as usize
    }

    pub fn off_mem_rsvmap(&self) -> (r: usize)
        requires
            self.spec_off_mem_rsvmap() <= usize::MAX,
        ensures
            r == self.spec_off_mem_rsvmap(),
    {
        self.off_mem_rsvmap as usize
    }

    pub fn version(&self) -> (r: u32)
        ensures
            r == self.spec_version(),
    {
        self.version
    }

    pub fn last_comp_version(&self) -> (r: u32)
        ensures
            r == self.spec_last_comp_version(),
    {
        self.last_comp_version
    }

    /// The reserved-memory map: (base, size) pairs up to the
    /// terminating zero-sized entry.
    pub fn reserved_maps(&self, data: &Vec<u8>) -> (r: Vec<(u64, u64)>)
        requires
            self.spec_off_mem_rsvmap() <= u32::MAX,
        ensures
            r@ == spec_rsv_list(data@, self.spec_off_mem_rsvmap()),
    {
        let mut out: Vec<(u64, u64)> = Vec::new();
        let mut off: u64 = self.off_mem_rsvmap as u64;
        let n = data.len();
        loop
            invariant
                n == data@.len(),
                0 <= off <= n + 0x1_0000_0000,
                out@ + spec_rsv_list(data@, off as int) == spec_rsv_list(
                    data@,
                    self.spec_off_mem_rsvmap(),
                ),
            ensures
                out@ == spec_rsv_list(data@, self.spec_off_mem_rsvmap()),
            decreases n - off,
        {
            if (n as u64) < 16 || off > n as u64 - 16 {
                break ;
            }
            let base = read_be64(data, off as usize);
            let size = read_be64(data, (off + 8) as usize);
            if size == 0 {
                break ;
            }
            out.push((base, size));
            proof {
                assert(out@ + spec_rsv_list(data@, off + 16 as int) =~= out@.drop_last()
                    + (seq![(base, size)] + spec_rsv_list(data@, off + 16 as int)));
            }
            off = off + 16;
        }
        out
    }
}

/// The name bytes a token points at equal this byte string.
pub open spec fn spec_name_is(data: Seq<u8>, off: int, len: int, name: Seq<u8>) -> bool {
    len == name.len() && forall|k: int| 0 <= k < len ==> data[off + k] == name[k]
}

/// Length of the token name up to its unit address: bytes before the
/// first `@`, or all of them when there is none.
pub open spec fn spec_unit_cut(data: Seq<u8>, off: int, len: int, k: int) -> int
    decreases len - k,
{
    if k < 0 || k >= len {
        len
    } else if data[off + k] == 0x40 {
        k
    } else {
        spec_unit_cut(data, off, len, k + 1)
    }
}

/// A parsed device tree: the blob and its decoded header.
pub struct DeviceTree {
    data: Vec<u8>,
    header: Header,
}

/// What the root-property search returns: walking the token stream,
/// stay inside the root node — any named node or an end-of-node stops
/// the search — and hand back the data span of the first property
/// carrying the wanted name.
pub open spec fn spec_find_root_prop(tokens: Seq<Token>, data: Seq<u8>, prop: Seq<u8>) -> Option<
    (int, int),
>
    decreases tokens.len(),
{
    if tokens.len() == 0 {
        None
    } else {
        match tokens[0] {
            Token::BeginNode { name_off, name_len } => {
                if name_len != 0 {
                    None
                } else {
                    spec_find_root_prop(tokens.drop_first(), data, prop)
                }
            },
            Token::EndNode => None,
            Token::Prop { name_off, name_len, data_off, data_len } => {
                if spec_name_is(data, name_off as int, name_len as int, prop) {
                    Some((data_off as int, data_len as int))
                } else {
                    spec_find_root_prop(tokens.drop_first(), data, prop)
                }
            },
        }
    }
}

/// What the first-level search returns: the depth counter starts one
/// below the root, every opening node records whether its name —
/// stripped of any unit address — is the wanted one, and a property
/// matches when it appears at depth one inside such a node.
pub open spec fn spec_find_first_level_prop(
    tokens: Seq<Token>,
    data: Seq<u8>,
    node: Seq<u8>,
    prop: Seq<u8>,
    level: int,
    node_matches: bool,
) -> Option<(int, int)>
    decreases tokens.len(),
{
    if tokens.len() == 0 {
        None
    } else {
        match tokens[0] {
            Token::BeginNode { name_off, name_len } => {
                let cut = spec_unit_cut(data, name_off as int, name_len as int, 0);
                spec_find_first_level_prop(
                    tokens.drop_first(),
                    data,
                    node,
                    prop,
                    level + 1,
                    spec_name_is(data, name_off as int, cut, node),
                )
            },
            Token::EndNode => spec_find_first_level_prop(
                tokens.drop_first(),
                data,
                node,
                prop,
                level - 1,
                node_matches,
            ),
            Token::Prop { name_off, name_len, data_off, data_len } => {
                if level == 1 && node_matches && spec_name_is(
                    data,
                    name_off as int,
                    name_len as int,
                    prop,
                ) {
                    Some((data_off as int, data_len as int))
                } else {
                    spec_find_first_level_prop(
                        tokens.drop_first(),
                        data,
                        node,
                        prop,
                        level,
                        node_matches,
                    )
                }
            },
        }
    }
}

/// The (base, size) pairs of a `reg` property: `words` 32-bit cells at
/// `off`, read in groups of `ac` address cells and `sc` size cells.
/// Only one- and two-cell fields are understood; anything else ends
/// the decoding.
pub open spec fn spec_reg_ranges(data: Seq<u8>, off: int, words: int, ac: int, sc: int) -> Seq<
    (int, int),
>
    decreases words,
{
    if !(ac == 1 || ac == 2) || !(sc == 1 || sc == 2) || words < ac + sc || off < 0 || off + (ac
        + sc) * 4 > data.len() {
        Seq::empty()
    } else {
        let base = if ac == 1 {
            spec_be32(data, off)
        } else {
            spec_be64(data, off)
        };
        let size = if sc == 1 {
            spec_be32(data, off + ac * 4)
        } else {
            spec_be64(data, off + ac * 4)
        };
        seq![(base, size)] + spec_reg_ranges(data, off + (ac + sc) * 4, words - ac - sc, ac, sc)
    }
}

impl DeviceTree {
    /// The raw blob, for use in contracts.
    pub closed spec fn blob(self) -> Seq<u8> {
        self.data@
    }

    pub closed spec fn spec_header(self) -> Header {
        self.header
    }

    /// The blob is large enough for its header, which decodes it, and
    /// small enough that every cell index fits comfortably in a
    /// machine word.
    pub open spec fn wf(self) -> bool {
        &&& 40 <= self.blob().len() <= 0x1000_0000
        &&& self.spec_header().matches(self.blob())
    }

    /// The token stream of the structure block.
    pub open spec fn spec_tokens(self) -> Seq<Token> {
        spec_token_seq(
            self.blob(),
            self.spec_header().spec_off_dt_struct(),
            self.spec_header().spec_off_dt_strings(),
            0,
        )
    }

    /// Takes ownership of a blob and decodes its header.  Accepts
    /// exactly the blobs that are large enough for the header, no
    /// larger than this reader supports, and carry the right magic and
    /// version words.
    pub fn parse(data: Vec<u8>) -> (r: Result<DeviceTree, ()>)
        ensures
            r matches Ok(dt) ==> dt.wf() && dt.blob() == data@ && dt.spec_header().spec_magic()
                == 0xD00DFEED,
            r is Ok <==> 40 <= data@.len() <= 0x1000_0000 && spec_be32(data@, 0) == 0xD00DFEED
                && spec_be32(data@, 20) == 0x11 && spec_be32(data@, 24) == 0x10,
    {
        if data.len() > 0x1000_0000 {
            return Err(());
        }
        let header = match Header::parse(&data) {
            Some(h) => h,
            None => {
                return Err(());
            },
        };
        if !header.is_valid() {
            return Err(());
        }
        Ok(DeviceTree { data, header })
    }

    pub fn header(&self) -> (r: &Header)
        ensures
            *r == self.spec_header(),
    {
        &self.header
    }

    /// The bytes of the blob.
    pub fn data(&self) -> (r: &Vec<u8>)
        ensures
            r@ == self.blob(),
    {
        &self.data
    }

    /// One step of the token scan from cell `index`.
    fn next_token(&self, index: usize) -> (r: Option<(Token, usize)>)
        requires
            self.wf(),
            index <= 0x1000_0000,
        ensures
            match spec_next_token(
                self.blob(),
                self.spec_header().spec_off_dt_struct(),
                self.spec_header().spec_off_dt_strings(),
                index as int,
            ) {
                Some((t, i2)) => r matches Some(p) && p.0 == t && p.1 == i2,
                None => r is None,
            },
        decreases self.blob().len() - index,
    {
        let soff = self.header.off_dt_struct as u64;
        let stroff = self.header.off_dt_strings as u64;
        let n = self.data.len() as u64;
        let pos = soff + (index as u64) * 4;
        if pos + 4 > n {
            return None;
        }
        let t = read_be32(&self.data, pos as usize);
        if t == FDT_NOP {
            self.next_token(index + 1)
        } else if t == FDT_BEGIN_NODE {
            let name_off = (pos + 4) as usize;
            let len = strlen_at(&self.data, name_off);
            proof {
                lemma_strlen_nonneg(self.blob(), name_off as int);
                lemma_strlen_le(self.blob(), name_off as int);
            }
            Some((Token::BeginNode { name_off, name_len: len }, index + 1 + (len + 4) / 4))
        } else if t == FDT_PROP {
            if pos + 12 > n {
                return None;
            }
            let data_len = read_be32(&self.data, (pos + 4) as usize) as u64;
            let name_off_raw = stroff + read_be32(&self.data, (pos + 8) as usize) as u64;
            if name_off_raw > 0x1000_0000 {
                return None;
            }
            let name_off = name_off_raw as usize;
            let name_len = strlen_at(&self.data, name_off);
            let next = (index as u64) + 3 + (data_len + 3) / 4;
            Some(
                (
                    Token::Prop {
                        name_off,
                        name_len,
                        data_off: (pos + 12) as usize,
                        data_len: data_len as usize,
                    },
                    next as usize,
                ),
            )
        } else if t == FDT_END_NODE {
            Some((Token::EndNode, index + 1))
        } else {
            None
        }
    }

    /// Every token of the structure block, in order.
    pub fn tokens(&self) -> (r: Vec<Token>)
        requires
            self.wf(),
        ensures
            r@ == self.spec_tokens(),
    {
        let ghost data = self.blob();
        let ghost soff = self.spec_header().spec_off_dt_struct();
        let ghost stroff = self.spec_header().spec_off_dt_strings();
        let mut out: Vec<Token> = Vec::new();
        let mut index: usize = 0;
        loop
            invariant_except_break
                out@ + spec_token_seq(data, soff, stroff, index as int) == self.spec_tokens(),
            invariant
                self.wf(),
                data == self.blob(),
                soff == self.spec_header().spec_off_dt_struct(),
                stroff == self.spec_header().spec_off_dt_strings(),
                0 <= index <= 0x1000_0000,
            ensures
                out@ == self.spec_tokens(),
            decreases spec_token_seq(data, soff, stroff, index as int).len(),
        {
            match self.next_token(index) {
                Some((t, index2)) => {
                    proof {
                        lemma_next_token_advances(data, soff, stroff, index as int);
                        if !(index2 <= data.len()) {
                            assert(spec_next_token(data, soff, stroff, index2 as int) is None);
                        }
                        assert(spec_token_seq(data, soff, stroff, index as int) == seq![t]
                            + spec_token_seq(data, soff, stroff, index2 as int));
                        assert(out@.push(t) + spec_token_seq(data, soff, stroff, index2 as int)
                            =~= out@ + spec_token_seq(data, soff, stroff, index as int));
                    }
                    out.push(t);
                    if index2 > 0x1000_0000 {
                        proof {
                            assert(spec_token_seq(data, soff, stroff, index2 as int)
                                =~= Seq::<Token>::empty());
                        }
                        break ;
                    }
                    index = index2;
                },
                None => {
                    proof {
                        assert(spec_token_seq(data, soff, stroff, index as int)
                            =~= Seq::<Token>::empty());
                    }
                    break ;
                },
            }
        }
        out
    }
}

/// The scan yields at most one token per byte of the blob.
pub proof fn lemma_token_seq_len(data: Seq<u8>, soff: int, stroff: int, index: int)
    ensures
        spec_token_seq(data, soff, stroff, index).len() <= (if 0 <= index <= data.len() {
            data.len() - index + 1
        } else {
            1
        }),
    decreases data.len() - index,
{
    match spec_next_token(data, soff, stroff, index) {
        None => {},
        Some((t, index2)) => {
            if index < index2 <= data.len() {
                lemma_token_seq_len(data, soff, stroff, index2);
            }
        },
    }
}

/// A token's name span stays inside the blob (an empty name may point
/// anywhere; nothing reads it).
pub open spec fn token_ok(t: Token, data: Seq<u8>) -> bool {
    match t {
        Token::BeginNode { name_off, name_len } => name_len == 0 || name_off + name_len
            <= data.len(),
        Token::EndNode => true,
        Token::Prop { name_off, name_len, data_off, data_len } => (name_len == 0 || name_off
            + name_len <= data.len()) && data_off <= data.len(),
    }
}

proof fn lemma_next_token_ok(data: Seq<u8>, soff: int, stroff: int, index: int)
    requires
        spec_next_token(data, soff, stroff, index) is Some,
    ensures
        token_ok(spec_next_token(data, soff, stroff, index).unwrap().0, data),
    decreases data.len() - (soff + index * 4),
{
    if soff >= 0 && stroff >= 0 && index >= 0 && soff + index * 4 + 4 <= data.len() {
        let t = spec_be32(data, soff + index * 4);
        if t == FDT_NOP {
            lemma_next_token_ok(data, soff, stroff, index + 1);
        } else if t == FDT_BEGIN_NODE {
            lemma_strlen_nonneg(data, soff + index * 4 + 4);
            lemma_strlen_le(data, soff + index * 4 + 4);
        } else if t == FDT_PROP && soff + index * 4 + 12 <= data.len() && stroff + spec_be32(
            data,
            soff + index * 4 + 8,
        ) <= 0x1000_0000 {
            let name_off = stroff + spec_be32(data, soff + index * 4 + 8);
            lemma_strlen_nonneg(data, name_off);
            lemma_strlen_le(data, name_off);
        }
    }
}

/// Every token the scan produces has its name span inside the blob.
proof fn lemma_token_seq_ok(data: Seq<u8>, soff: int, stroff: int, index: int)
    ensures
        forall|i: int|
            0 <= i < spec_token_seq(data, soff, stroff, index).len() ==> token_ok(
                #[trigger] spec_token_seq(data, soff, stroff, index)[i],
                data,
            ),
    decreases data.len() - index,
{
    match spec_next_token(data, soff, stroff, index) {
        None => {},
        Some((t, index2)) => {
            lemma_next_token_ok(data, soff, stroff, index);
            if index < index2 <= data.len() {
                lemma_token_seq_ok(data, soff, stroff, index2);
                assert forall|i: int|
                    0 <= i < spec_token_seq(data, soff, stroff, index).len() implies token_ok(
                    #[trigger] spec_token_seq(data, soff, stroff, index)[i],
                    data,
                ) by {
                    if i > 0 {
                        assert(spec_token_seq(data, soff, stroff, index)[i] == spec_token_seq(
                            data,
                            soff,
                            stroff,
                            index2,
                        )[i - 1]);
                    }
                }
            }
        },
    }
}

/// A successful root-property search points inside the blob.
proof fn lemma_find_root_prop_ok(tokens: Seq<Token>, data: Seq<u8>, prop: Seq<u8>)
    requires
        forall|i: int| 0 <= i < tokens.len() ==> token_ok(#[trigger] tokens[i], data),
    ensures
        match spec_find_root_prop(tokens, data, prop) {
            Some((o, l)) => 0 <= o <= data.len() && 0 <= l <= usize::MAX,
            None => true,
        },
    decreases tokens.len(),
{
    if tokens.len() > 0 {
        assert(forall|i: int|
            0 <= i < tokens.drop_first().len() ==> tokens.drop_first()[i] == tokens[i + 1]);
        lemma_find_root_prop_ok(tokens.drop_first(), data, prop);
    }
}

/// Likewise for the first-level search.
proof fn lemma_find_first_level_prop_ok(
    tokens: Seq<Token>,
    data: Seq<u8>,
    node: Seq<u8>,
    prop: Seq<u8>,
    level: int,
    node_matches: bool,
)
    requires
        forall|i: int| 0 <= i < tokens.len() ==> token_ok(#[trigger] tokens[i], data),
    ensures
        match spec_find_first_level_prop(tokens, data, node, prop, level, node_matches) {
            Some((o, l)) => 0 <= o <= data.len() && 0 <= l <= usize::MAX,
            None => true,
        },
    decreases tokens.len(),
{
    if tokens.len() > 0 {
        assert(forall|i: int|
            0 <= i < tokens.drop_first().len() ==> tokens.drop_first()[i] == tokens[i + 1]);
        match tokens[0] {
            Token::BeginNode { name_off, name_len } => {
                let cut = spec_unit_cut(data, name_off as int, name_len as int, 0);
                lemma_find_first_level_prop_ok(
                    tokens.drop_first(),
                    data,
                    node,
                    prop,
                    level + 1,
                    spec_name_is(data, name_off as int, cut, node),
                );
            },
            Token::EndNode => {
                lemma_find_first_level_prop_ok(
                    tokens.drop_first(),
                    data,
                    node,
                    prop,
                    level - 1,
                    node_matches,
                );
            },
            Token::Prop { .. } => {
                lemma_find_first_level_prop_ok(
                    tokens.drop_first(),
                    data,
                    node,
                    prop,
                    level,
                    node_matches,
                );
            },
        }
    }
}

/// Whether the `len` blob bytes at `off` equal the pattern.
fn name_is(data: &Vec<u8>, off: usize, len: usize, pat: &str) -> (r: bool)
    requires
        len == 0 || off + len <= data@.len(),
    ensures
        r == spec_name_is(data@, off as int, len as int, pat.spec_bytes()),
{
    let dn = data.len();
    let pb = pat.as_bytes();
    if pb.len() != len {
        return false;
    }
    if len == 0 {
        return true;
    }
    let mut k: usize = 0;
    while k < len
        invariant
            dn == data@.len(),
            pb@ == pat.spec_bytes(),
            pb@.len() == len,
            off + len <= dn,
            0 <= k <= len,
            forall|j: int| 0 <= j < k ==> data@[off + j] == pb@[j],
        decreases len - k,
    {
        if data[off + k] != pb[k] {
            return false;
        }
        k = k + 1;
    }
    true
}

/// Whether the token name at `off`, stripped of any unit address,
/// equals the pattern.
fn node_name_is(data: &Vec<u8>, off: usize, len: usize, pat: &str) -> (r: bool)
    requires
        len == 0 || off + len <= data@.len(),
    ensures
        r == spec_name_is(
            data@,
            off as int,
            spec_unit_cut(data@, off as int, len as int, 0),
            pat.spec_bytes(),
        ),
{
    let dn = data.len();
    let mut cut: usize = 0;
    while cut < len && data[off + cut] != 0x40
        invariant
            dn == data@.len(),
            len == 0 || off + len <= dn,
            0 <= cut <= len,
            spec_unit_cut(data@, off as int, len as int, 0) == spec_unit_cut(
                data@,
                off as int,
                len as int,
                cut as int,
            ),
        decreases len - cut,
    {
        cut = cut + 1;
    }
    name_is(data, off, cut, pat)
}

impl DeviceTree {
    /// Finds the named property of the root node: the search walks the
    /// root's own property list and stops at the first named child
    /// node or at the root's end.  Returns the offset and length of
    /// the property's data in the blob.
    pub fn find_root_prop(&self, prop_name: &PropName) -> (r: Option<(usize, usize)>)
        requires
            self.wf(),
        ensures
            match spec_find_root_prop(self.spec_tokens(), self.blob(), prop_name.0.spec_bytes()) {
                Some((o, l)) => r == Some((o as usize, l as usize)),
                None => r is None,
            },
    {
        let ghost data = self.blob();
        let ghost prop = prop_name.0.spec_bytes();
        let tokens = self.tokens();
        proof {
            lemma_token_seq_ok(
                data,
                self.spec_header().spec_off_dt_struct(),
                self.spec_header().spec_off_dt_strings(),
                0,
            );
        }
        let mut i: usize = 0;
        let n = tokens.len();
        proof {
            assert(tokens@.skip(0) =~= tokens@);
        }
        while i < n
            invariant
                self.wf(),
                data == self.blob(),
                prop == prop_name.0.spec_bytes(),
                n == tokens@.len(),
                tokens@ == self.spec_tokens(),
                0 <= i <= n,
                forall|j: int| 0 <= j < n ==> token_ok(#[trigger] tokens@[j], data),
                spec_find_root_prop(tokens@.skip(i as int), data, prop) == spec_find_root_prop(
                    tokens@,
                    data,
                    prop,
                ),
            decreases n - i,
        {
            let ghost rest = tokens@.skip(i as int);
            proof {
                assert(rest[0] == tokens@[i as int]);
                assert(rest.drop_first() =~= tokens@.skip(i as int + 1));
            }
            match tokens[i] {
                Token::BeginNode { name_off, name_len } => {
                    if name_len != 0 {
                        return None;
                    }
                },
                Token::EndNode => {
                    return None;
                },
                Token::Prop { name_off, name_len, data_off, data_len } => {
                    if name_is(&self.data, name_off, name_len, prop_name.0) {
                        return Some((data_off, data_len));
                    }
                },
            }
            i = i + 1;
        }
        proof {
            assert(tokens@.skip(n as int) =~= Seq::<Token>::empty());
        }
        None
    }

    /// Finds a property of a first-level node with the given name,
    /// matching node names with their unit addresses stripped.
    pub fn find_first_level_prop(&self, node_name: &NodeName, prop_name: &PropName) -> (r: Option<
        (usize, usize),
    >)
        requires
            self.wf(),
        ensures
            match spec_find_first_level_prop(
                self.spec_tokens(),
                self.blob(),
                node_name.0.spec_bytes(),
                prop_name.0.spec_bytes(),
                -1,
                false,
            ) {
                Some((o, l)) => r == Some((o as usize, l as usize)),
                None => r is None,
            },
    {
        let ghost data = self.blob();
        let ghost node = node_name.0.spec_bytes();
        let ghost prop = prop_name.0.spec_bytes();
        let tokens = self.tokens();
        proof {
            lemma_token_seq_ok(
                data,
                self.spec_header().spec_off_dt_struct(),
                self.spec_header().spec_off_dt_strings(),
                0,
            );
        }
        let mut i: usize = 0;
        let n = tokens.len();
        proof {
            assert(tokens@.skip(0) =~= tokens@);
            lemma_token_seq_len(
                data,
                self.spec_header().spec_off_dt_struct(),
                self.spec_header().spec_off_dt_strings(),
                0,
            );
        }
        let mut level: i64 = -1;
        let mut node_matches: bool = false;
        while i < n
            invariant
                self.wf(),
                data == self.blob(),
                node == node_name.0.spec_bytes(),
                prop == prop_name.0.spec_bytes(),
                n == tokens@.len(),
                tokens@ == self.spec_tokens(),
                0 <= i <= n,
                n <= data.len() + 1,
                data.len() <= 0x1000_0000,
                -(i as int) - 1 <= level <= i,
                forall|j: int| 0 <= j < n ==> token_ok(#[trigger] tokens@[j], data),
                spec_find_first_level_prop(
                    tokens@.skip(i as int),
                    data,
                    node,
                    prop,
                    level as int,
                    node_matches,
                ) == spec_find_first_level_prop(tokens@, data, node, prop, -1, false),
            decreases n - i,
        {
            let ghost rest = tokens@.skip(i as int);
            proof {
                assert(rest[0] == tokens@[i as int]);
                assert(rest.drop_first() =~= tokens@.skip(i as int + 1));
            }
            match tokens[i] {
                Token::BeginNode { name_off, name_len } => {
                    node_matches = node_name_is(&self.data, name_off, name_len, node_name.0);
                    level = level + 1;
                },
                Token::EndNode => {
                    level = level - 1;
                },
                Token::Prop { name_off, name_len, data_off, data_len } => {
                    if level == 1 && node_matches && name_is(
                        &self.data,
                        name_off,
                        name_len,
                        prop_name.0,
                    ) {
                        return Some((data_off, data_len));
                    }
                },
            }
            i = i + 1;
        }
        proof {
            assert(tokens@.skip(n as int) =~= Seq::<Token>::empty());
        }
        None
    }
}

/// Relies on core::str::from_utf8: succeeds exactly on valid UTF-8
/// and reinterprets the bytes unchanged.
#[verifier::external_body]
fn bytes_as_str(v: &[u8]) -> (r: Option<&str>)
    ensures
        r is Some <==> vstd::utf8::valid_utf8(v@),
        r matches Some(s) ==> s.spec_bytes() == v@,
{
    core::str::from_utf8(v).ok()
}

impl DeviceTree {
    /// What decoding the memory ranges yields, if anything: the root's
    /// cell-count properties fix the field widths, and the `reg`
    /// property of the first-level `memory` node supplies the cells.
    pub open spec fn spec_memory_ranges(self) -> Option<Seq<(int, int)>> {
        let tokens = self.spec_tokens();
        let ac = spec_find_root_prop(tokens, self.blob(), ("#address-cells").spec_bytes());
        let sc = spec_find_root_prop(tokens, self.blob(), ("#size-cells").spec_bytes());
        let reg = spec_find_first_level_prop(
            tokens,
            self.blob(),
            ("memory").spec_bytes(),
            ("reg").spec_bytes(),
            -1,
            false,
        );
        match (ac, sc, reg) {
            (Some((ao, al)), Some((so, sl)), Some((ro, rl))) => {
                if al >= 4 && sl >= 4 && ao + 4 <= self.blob().len() && so + 4
                    <= self.blob().len() {
                    Some(
                        spec_reg_ranges(
                            self.blob(),
                            ro,
                            rl / 4,
                            spec_be32(self.blob(), ao),
                            spec_be32(self.blob(), so),
                        ),
                    )
                } else {
                    None
                }
            },
            _ => None,
        }
    }

    /// The firmware-reported memory ranges, as (base, size) pairs;
    /// `None` when the blob lacks the cell-count or `reg` properties
    /// this reader needs.
    pub fn memory_ranges(&self) -> (r: Option<Vec<(PhysicalAddress, u64)>>)
        requires
            self.wf(),
        ensures
            match self.spec_memory_ranges() {
                Some(pairs) => {
                    &&& r matches Some(v)
                    &&& v@.len() == pairs.len()
                    &&& forall|i: int|
                        0 <= i < pairs.len() ==> (#[trigger] v@[i]).0.spec_u64() == pairs[i].0
                            && v@[i].1 == pairs[i].1
                },
                None => r is None,
            },
    {
        let ghost data = self.blob();
        proof {
            reveal_strlit("#address-cells");
            reveal_strlit("#size-cells");
            reveal_strlit("memory");
            reveal_strlit("reg");
        }
        let ac_prop = PropName::new("#address-cells");
        let sc_prop = PropName::new("#size-cells");
        proof {
            assert(ac_prop.0@ == ("#address-cells")@);
            assert(sc_prop.0@ == ("#size-cells")@);
            assert(ac_prop.0.spec_bytes() == ("#address-cells").spec_bytes());
            assert(sc_prop.0.spec_bytes() == ("#size-cells").spec_bytes());
        }
        let (ao, al) = match self.find_root_prop(&ac_prop) {
            Some(p) => p,
            None => {
                return None;
            },
        };
        let (so, sl) = match self.find_root_prop(&sc_prop) {
            Some(p) => p,
            None => {
                return None;
            },
        };
        let n0 = self.data.len();
        proof {
            lemma_token_seq_ok(
                data,
                self.spec_header().spec_off_dt_struct(),
                self.spec_header().spec_off_dt_strings(),
                0,
            );
            lemma_find_root_prop_ok(self.spec_tokens(), data, ("#address-cells").spec_bytes());
            lemma_find_root_prop_ok(self.spec_tokens(), data, ("#size-cells").spec_bytes());
            lemma_find_first_level_prop_ok(
                self.spec_tokens(),
                data,
                ("memory").spec_bytes(),
                ("reg").spec_bytes(),
                -1,
                false,
            );
        }
        if al < 4 || sl < 4 || ao >= n0 || n0 - ao < 4 || so >= n0 || n0 - so < 4 {
            return None;
        }
        let ac = read_be32(&self.data, ao);
        let sc = read_be32(&self.data, so);
        let mem_node = NodeName::new("memory");
        let reg_prop = PropName::new("reg");
        proof {
            assert(mem_node.0@ == ("memory")@);
            assert(reg_prop.0@ == ("reg")@);
            assert(mem_node.0.spec_bytes() == ("memory").spec_bytes());
            assert(reg_prop.0.spec_bytes() == ("reg").spec_bytes());
        }
        let (ro, rl) = match self.find_first_level_prop(&mem_node, &reg_prop) {
            Some(p) => p,
            None => {
                return None;
            },
        };
        let mut out: Vec<(PhysicalAddress, u64)> = Vec::new();
        let mut off: usize = ro;
        let mut words: usize = rl / 4;
        let n = self.data.len();
        loop
            invariant_except_break
                n == data.len(),
                data == self.blob(),
                0 <= off <= n,
                ({
                    let whole = spec_reg_ranges(data, ro as int, (rl / 4) as int, ac as int, sc as int);
                    let rest = spec_reg_ranges(data, off as int, words as int, ac as int, sc as int);
                    &&& whole.len() == out@.len() + rest.len()
                    &&& forall|i: int|
                        0 <= i < out@.len() ==> (#[trigger] out@[i]).0.spec_u64() == whole[i].0
                            && out@[i].1 == whole[i].1
                    &&& forall|i: int|
                        out@.len() <= i < whole.len() ==> whole[i] == rest[i - out@.len()]
                }),
            ensures
                ({
                    let whole = spec_reg_ranges(data, ro as int, (rl / 4) as int, ac as int, sc as int);
                    &&& whole.len() == out@.len()
                    &&& forall|i: int|
                        0 <= i < out@.len() ==> (#[trigger] out@[i]).0.spec_u64() == whole[i].0
                            && out@[i].1 == whole[i].1
                }),
            decreases words,
        {
            let ghost rest = spec_reg_ranges(data, off as int, words as int, ac as int, sc as int);
            if !(ac == 1 || ac == 2) || !(sc == 1 || sc == 2) {
                proof {
                    assert(rest =~= Seq::<(int, int)>::empty());
                }
                break ;
            }
            let group = (ac + sc) as usize;
            if words < group || off > n || group * 4 > n - off {
                proof {
                    assert(rest =~= Seq::<(int, int)>::empty());
                }
                break ;
            }
            let base: u64 = if ac == 1 {
                read_be32(&self.data, off) as u64
            } else {
                read_be64(&self.data, off)
            };
            let size: u64 = if sc == 1 {
                read_be32(&self.data, off + (ac as usize) * 4) as u64
            } else {
                read_be64(&self.data, off + (ac as usize) * 4)
            };
            proof {
                assert(rest[0] == (base as int, size as int));
                assert(rest.drop_first() =~= spec_reg_ranges(
                    data,
                    off + group * 4,
                    words - group,
                    ac as int,
                    sc as int,
                ));
            }
            out.push((PhysicalAddress::new(base), size));
            off = off + group * 4;
            words = words - group;
        }
        Some(out)
    }

    /// The `model` property of the root node, as a string: present
    /// when the property exists, holds more than its terminating NUL,
    /// and is valid UTF-8.
    pub fn root_model<'a>(&'a self) -> (r: Option<&'a str>)
        requires
            self.wf(),
        ensures
            match spec_find_root_prop(self.spec_tokens(), self.blob(), ("model").spec_bytes()) {
                Some((o, l)) => {
                    if l > 1 && o + l <= self.blob().len() && vstd::utf8::valid_utf8(
                        self.blob().subrange(o, o + l - 1),
                    ) {
                        r matches Some(s) && s.spec_bytes() == self.blob().subrange(o, o + l - 1)
                    } else {
                        r is None
                    }
                },
                None => r is None,
            },
    {
        proof {
            reveal_strlit("model");
        }
        let model_prop = PropName::new("model");
        proof {
            assert(model_prop.0@ == ("model")@);
            assert(model_prop.0.spec_bytes() == ("model").spec_bytes());
        }
        let (o, l) = match self.find_root_prop(&model_prop) {
            Some(p) => p,
            None => {
                return None;
            },
        };
        let n0 = self.data.len();
        proof {
            lemma_token_seq_ok(
                self.blob(),
                self.spec_header().spec_off_dt_struct(),
                self.spec_header().spec_off_dt_strings(),
                0,
            );
            lemma_find_root_prop_ok(self.spec_tokens(), self.blob(), ("model").spec_bytes());
        }
        if l <= 1 || o > n0 || l > n0 - o {
            return None;
        }
        let bytes = vstd::slice::slice_subrange(self.data.as_slice(), o, o + l - 1);
        bytes_as_str(bytes)
    }
}

} // verus!
