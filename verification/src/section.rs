//! Section loading: locating a named debug section inside a parsed image and
//! wrapping its raw bytes with an endianness tag.

use vstd::prelude::*;

use crate::error::Error;

verus! {

/// The logical identity of a debug section.
#[derive(Debug, Clone, Copy, PartialEq, Eq, Structural)]
pub enum SectionKind {
    Info,
    Abbrev,
    Str,
    Line,
    Ranges,
}

/// The debug sections of a loaded binary image, as plain bytes, together with
/// the image's endianness. The image loader retrieves each section by name
/// (see [`section_name`]) and records `None` for an absent section.
pub struct Image {
    /// True when the image is little-endian.
    pub little: bool,
    pub info: Option<Vec<u8>>,
    pub abbrev: Option<Vec<u8>>,
    pub str_bytes: Option<Vec<u8>>,
    pub line: Option<Vec<u8>>,
    pub ranges: Option<Vec<u8>>,
}

/// A typed, read-only view of one debug section: its bytes, the image's
/// endianness tag, and the section's identity.
pub struct SectionView {
    pub kind: SectionKind,
    pub little: bool,
    pub bytes: Vec<u8>,
}

impl Image {
    /// The bytes the image holds for a section kind, before any view is made.
    pub open spec fn section_spec(&self, kind: SectionKind) -> Option<Seq<u8>> {
        match kind {
            SectionKind::Info => match self.info {
                Some(ref v) => Some(v@),
                None => None,
            },
            SectionKind::Abbrev => match self.abbrev {
                Some(ref v) => Some(v@),
                None => None,
            },
            SectionKind::Str => match self.str_bytes {
                Some(ref v) => Some(v@),
                None => None,
            },
            SectionKind::Line => match self.line {
                Some(ref v) => Some(v@),
                None => None,
            },
            SectionKind::Ranges => match self.ranges {
                Some(ref v) => Some(v@),
                None => None,
            },
        }
    }

    /// Whether every section that catalog construction cannot do without is
    /// present: info, abbrev, str and line. The ranges section is optional;
    /// its absence only disables range-list resolution.
    pub open spec fn mandatory_present(&self) -> bool {
        &&& self.info is Some
        &&& self.abbrev is Some
        &&& self.str_bytes is Some
        &&& self.line is Some
    }
}

/// The object-file name under which a debug section is stored.
pub fn section_name(kind: SectionKind) -> (r: &'static str)
    ensures
        kind == SectionKind::Info ==> r@ == ".debug_info"@,
        kind == SectionKind::Abbrev ==> r@ == ".debug_abbrev"@,
        kind == SectionKind::Str ==> r@ == ".debug_str"@,
        kind == SectionKind::Line ==> r@ == ".debug_line"@,
        kind == SectionKind::Ranges ==> r@ == ".debug_ranges"@,
{
    match kind {
        SectionKind::Info => ".debug_info",
        SectionKind::Abbrev => ".debug_abbrev",
        SectionKind::Str => ".debug_str",
        SectionKind::Line => ".debug_line",
        SectionKind::Ranges => ".debug_ranges",
    }
}

/// Locates the section of the given kind inside the image and wraps its bytes
/// with the image's endianness tag. Fails with `MissingSection` exactly when
/// the image has no such section.
pub fn load_section(image: &Image, kind: SectionKind) -> (r: Result<SectionView, Error>)
    ensures
        match r {
            Ok(v) => {
                &&& image.section_spec(kind) == Some(v.bytes@)
                &&& v.little == image.little
                &&& v.kind == kind
            },
            Err(e) => {
                &&& e is MissingSection
                &&& image.section_spec(kind) is None
            },
        },
{
    let src: &Option<Vec<u8>> = match kind {
        SectionKind::Info => &image.info,
        SectionKind::Abbrev => &image.abbrev,
        SectionKind::Str => &image.str_bytes,
        SectionKind::Line => &image.line,
        SectionKind::Ranges => &image.ranges,
    };
    match src {
        Some(v) => Ok(SectionView { kind, little: image.little, bytes: copy_bytes(v) }),
        None => Err(Error::MissingSection),
    }
}

/// Copies a byte vector. The views of the copy and the original are equal.
pub fn copy_bytes(v: &Vec<u8>) -> (r: Vec<u8>)
    ensures
        r@ == v@,
{
    let mut out: Vec<u8> = Vec::new();
    let mut i: usize = 0;
    while i < v.len()
        invariant
            i <= v.len(),
            out@ == v@.subrange(0, i as int),
        decreases v.len() - i,
    {
        out.push(v[i]);
        i = i + 1;
        proof {
            assert(out@ == v@.subrange(0, i as int));
        }
    }
    proof {
        assert(v@.subrange(0, v@.len() as int) == v@);
    }
    out
}

/// The position of the first NUL byte at or after `from`, if any.
pub open spec fn find_nul(bytes: Seq<u8>, from: int) -> Option<int>
    decreases bytes.len() - from,
{
    if from < 0 || from >= bytes.len() {
        None
    } else if bytes[from] == 0 {
        Some(from)
    } else {
        find_nul(bytes, from + 1)
    }
}

/// The NUL-terminated string stored at `off` in a string section, exclusive
/// of the terminator; `None` when `off` is out of bounds or no terminator
/// follows.
pub open spec fn str_at(bytes: Seq<u8>, off: u64) -> Option<Seq<u8>> {
    match find_nul(bytes, off as int) {
        Some(j) => Some(bytes.subrange(off as int, j)),
        None => None,
    }
}

/// Reads the NUL-terminated string stored at `off` in the section, as the
/// DWARF string section stores unit names and compile directories.
pub fn get_str(sec: &SectionView, off: u64) -> (r: Option<Vec<u8>>)
    ensures
        match r {
            Some(v) => str_at(sec.bytes@, off) == Some(v@),
            None => str_at(sec.bytes@, off) is None,
        },
{
    let n: usize = sec.bytes.len();
    if off >= n as u64 {
        proof {
            assert(off as int >= sec.bytes@.len());
            assert(find_nul(sec.bytes@, off as int) is None);
        }
        return None;
    }
    let start: usize = off as usize;
    proof {
        assert(off <= usize::MAX as u64);
        assert(start as int == off as int);
    }
    let mut i: usize = start;
    let mut out: Vec<u8> = Vec::new();
    while i < sec.bytes.len()
        invariant
            start as int == off as int,
            start <= i <= sec.bytes@.len(),
            out@ == sec.bytes@.subrange(start as int, i as int),
            find_nul(sec.bytes@, start as int) == find_nul(sec.bytes@, i as int),
            forall|k: int| start <= k < i ==> sec.bytes@[k] != 0,
        decreases sec.bytes.len() - i,
    {
        let b: u8 = sec.bytes[i];
        if b == 0 {
            proof {
                assert(find_nul(sec.bytes@, i as int) == Some(i as int));
                assert(find_nul(sec.bytes@, start as int) == Some(i as int));
                assert(start as int == off as int);
                assert(out@ == sec.bytes@.subrange(off as int, i as int));
            }
            return Some(out);
        }
        out.push(b);
        i = i + 1;
        proof {
            assert(out@ == sec.bytes@.subrange(start as int, i as int));
        }
    }
    proof {
        assert(find_nul(sec.bytes@, i as int) is None);
    }
    None
}

} // verus!
