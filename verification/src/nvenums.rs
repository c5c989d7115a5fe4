//! Classification of the nodes of a pool's device tree.

use crate::wire::bytes_eq;
use vstd::prelude::*;
use vstd::string::StringSliceAdditionalSpecFns;

verus! {

/// What kind of device a node of a pool's device tree is.
#[derive(Debug, Clone, Copy, PartialEq, Eq, Structural)]
pub enum VdevType {
    Root,
    Mirror,
    Replacing,
    Raidz,
    Draid,
    DraidSpare,
    Disk,
    File,
    Missing,
    Hole,
    Spare,
    Log,
    L2cache,
    Indirect,
    Unknown,
}

impl VdevType {
    /// The kind that the bytes of a node's `type` string name: each kind but
    /// `Unknown` has one name, and `Unknown` stands for every other string.
    pub open spec fn spec_from(s: Seq<u8>) -> VdevType {
        if s == "root".spec_bytes() {
            VdevType::Root
        } else if s == "mirror".spec_bytes() {
            VdevType::Mirror
        } else if s == "replacing".spec_bytes() {
            VdevType::Replacing
        } else if s == "raidz".spec_bytes() {
            VdevType::Raidz
        } else if s == "draid".spec_bytes() {
            VdevType::Draid
        } else if s == "dspare".spec_bytes() {
            VdevType::DraidSpare
        } else if s == "disk".spec_bytes() {
            VdevType::Disk
        } else if s == "file".spec_bytes() {
            VdevType::File
        } else if s == "missing".spec_bytes() {
            VdevType::Missing
        } else if s == "hole".spec_bytes() {
            VdevType::Hole
        } else if s == "spare".spec_bytes() {
            VdevType::Spare
        } else if s == "log".spec_bytes() {
            VdevType::Log
        } else if s == "l2cache".spec_bytes() {
            VdevType::L2cache
        } else if s == "indirect".spec_bytes() {
            VdevType::Indirect
        } else {
            VdevType::Unknown
        }
    }

    /// Classifies a device by the bytes of its `type` string. The mapping is
    /// total: a string that names no kind gives `Unknown`.
    pub fn from(s: &[u8]) -> (r: VdevType)
        ensures
            r == Self::spec_from(s@),
    {
        if bytes_eq(s, "root".as_bytes()) {
            VdevType::Root
        } else if bytes_eq(s, "mirror".as_bytes()) {
            VdevType::Mirror
        } else if bytes_eq(s, "replacing".as_bytes()) {
            VdevType::Replacing
        } else if bytes_eq(s, "raidz".as_bytes()) {
            VdevType::Raidz
        } else if bytes_eq(s, "draid".as_bytes()) {
            VdevType::Draid
        } else if bytes_eq(s, "dspare".as_bytes()) {
            VdevType::DraidSpare
        } else if bytes_eq(s, "disk".as_bytes()) {
            VdevType::Disk
        } else if bytes_eq(s, "file".as_bytes()) {
            VdevType::File
        } else if bytes_eq(s, "missing".as_bytes()) {
            VdevType::Missing
        } else if bytes_eq(s, "hole".as_bytes()) {
            VdevType::Hole
        } else if bytes_eq(s, "spare".as_bytes()) {
            VdevType::Spare
        } else if bytes_eq(s, "log".as_bytes()) {
            VdevType::Log
        } else if bytes_eq(s, "l2cache".as_bytes()) {
            VdevType::L2cache
        } else if bytes_eq(s, "indirect".as_bytes()) {
            VdevType::Indirect
        } else {
            VdevType::Unknown
        }
    }
}

} // verus!
