//! Disks and mounted volumes: the disk model, the rotational-flag reading
//! that classifies a disk, and the `/proc/mounts` lines that name the
//! volumes worth showing. The `statvfs` call that fills in the space
//! figures stays with the caller.

use vstd::prelude::*;
use vstd::string::*;

use crate::format_num::{is_digit_char, spec_val};
use crate::text::{
    find_char_from, find_non_space_from, first_char_from, first_non_space_from,
    lemma_first_char_from, lemma_first_non_space_from, lemma_split_step, matches_at, parse_u64,
    spec_split, spec_trim, starts_with, trim,
};

verus! {

/// The mechanical kind of a disk, read from its rotational flag.
#[derive(Clone, Copy, Debug, PartialEq, Eq, Structural)]
pub enum DiskType {
    /// HDD type.
    HDD,
    /// SSD type.
    SSD,
    /// Unknown type.
    Unknown(isize),
}

/// The kind a rotational flag value denotes: zero maps to `HDD`, one to
/// `SSD`, and any other value stays unknown with its code.
pub open spec fn spec_disk_type_from(t: isize) -> DiskType {
    if t == 0 {
        DiskType::HDD
    } else if t == 1 {
        DiskType::SSD
    } else {
        DiskType::Unknown(t)
    }
}

impl From<isize> for DiskType {
    fn from(t: isize) -> (r: DiskType) {
        if t == 0 {
            DiskType::HDD
        } else if t == 1 {
            DiskType::SSD
        } else {
            DiskType::Unknown(t)
        }
    }
}

impl vstd::std_specs::convert::FromSpecImpl<isize> for DiskType {
    open spec fn obeys_from_spec() -> bool {
        true
    }

    open spec fn from_spec(t: isize) -> DiskType {
        spec_disk_type_from(t)
    }
}

/// One disk-backed volume and its space figures.
pub struct Disk {
    pub type_: DiskType,
    pub name: String,
    pub file_system: String,
    pub mount_point: String,
    pub total_space: u64,
    pub available_space: u64,
}

impl Disk {
    /// Returns the disk type.
    pub fn get_type(&self) -> (r: DiskType)
        ensures
            r == self.type_,
    {
        self.type_
    }

    /// Returns the disk name.
    pub fn get_name(&self) -> (r: &str)
        ensures
            r@ == self.name@,
    {
        self.name.as_str()
    }

    /// Returns the file system used on this disk (for example `ext4`).
    pub fn get_file_system(&self) -> (r: &str)
        ensures
            r@ == self.file_system@,
    {
        self.file_system.as_str()
    }

    /// Returns the mount point of the disk (`/` for example).
    pub fn get_mount_point(&self) -> (r: &str)
        ensures
            r@ == self.mount_point@,
    {
        self.mount_point.as_str()
    }

    /// Returns the total disk size, in bytes.
    pub fn get_total_space(&self) -> (r: u64)
        ensures
            r == self.total_space,
    {
        self.total_space
    }

    /// Returns the available disk size, in bytes.
    pub fn get_available_space(&self) -> (r: u64)
        ensures
            r == self.available_space,
    {
        self.available_space
    }
}

/// A device name with its trailing partition digits removed, always
/// keeping at least one character: "sda1" names the disk "sda".
pub open spec fn spec_trim_partition_digits(s: Seq<char>) -> Seq<char>
    decreases s.len(),
{
    if s.len() > 1 && is_digit_char(s.last()) {
        spec_trim_partition_digits(s.drop_last())
    } else {
        s
    }
}

/// Removes the trailing partition digits of a device name.
pub fn trim_partition_digits(s: &str) -> (r: &str)
    ensures
        r@ == spec_trim_partition_digits(s@),
{
    let n: usize = s.unicode_len();
    proof {
        assert(s@.take(n as int) =~= s@);
    }
    let mut j: usize = n;
    while j > 1
        invariant
            j <= n,
            n == s@.len(),
            n >= 1 ==> j >= 1,
            spec_trim_partition_digits(s@) == spec_trim_partition_digits(s@.take(j as int)),
        decreases j,
    {
        proof {
            assert(s@.take(j as int).last() == s@[j - 1]);
            assert(s@.take(j as int).drop_last() =~= s@.take(j - 1));
        }
        let c: char = s.get_char(j - 1);
        let digit: bool = c == '0' || c == '1' || c == '2' || c == '3' || c == '4' || c == '5' || c
            == '6' || c == '7' || c == '8' || c == '9';
        if !digit {
            return s.substring_char(0, j);
        }
        j = j - 1;
    }
    s.substring_char(0, j)
}

/// The kind the text of a `queue/rotational` file denotes: its trimmed
/// value read as a number (zero `HDD`, one `SSD`), and unknown with code
/// `-1` when no number in range can be read.
pub open spec fn spec_rotational_disk_type(s: Seq<char>) -> DiskType {
    let t = spec_trim(s);
    if t.len() > 0 && (forall|i: int| 0 <= i < t.len() ==> is_digit_char(#[trigger] t[i]))
        && spec_val(t) <= isize::MAX {
        spec_disk_type_from(spec_val(t) as isize)
    } else {
        DiskType::Unknown(-1isize)
    }
}

/// Classifies a disk from the text of its `queue/rotational` file.
pub fn rotational_disk_type(s: &str) -> (r: DiskType)
    ensures
        r == spec_rotational_disk_type(s@),
{
    let t: &str = trim(s);
    match parse_u64(t) {
        Some(v) => {
            if v == 0 {
                DiskType::HDD
            } else if v == 1 {
                DiskType::SSD
            } else if v <= isize::MAX as u64 {
                DiskType::Unknown(v as isize)
            } else {
                DiskType::Unknown(-1isize)
            }
        },
        None => DiskType::Unknown(-1isize),
    }
}

/// One volume line of `/proc/mounts`: the device name with its `/dev/`
/// prefix removed, the mount point, and the file system.
pub struct MountEntry {
    pub device: String,
    pub mount_point: String,
    pub file_system: String,
}

/// Whether a mounts line names a device worth showing: after leading
/// blanks it starts with one of the disk device prefixes.
pub open spec fn spec_mount_interesting(l: Seq<char>) -> bool {
    let lt = l.skip(first_non_space_from(l, 0) as int);
    matches_at(lt, "/dev/sd"@, 0) || matches_at(lt, "/dev/nvme"@, 0) || matches_at(
        lt,
        "/dev/mapper/"@,
        0,
    ) || matches_at(lt, "/dev/root"@, 0) || matches_at(lt, "/dev/mmcblk"@, 0)
}

/// The entry a mounts line yields: its first three space-separated
/// fields, with `/dev/` cut off the device. Lines that are not
/// interesting, have fewer than three fields, or whose first field is
/// shorter than the prefix yield none.
pub open spec fn spec_mount_entry(l: Seq<char>) -> Option<(Seq<char>, Seq<char>, Seq<char>)> {
    let c1 = first_char_from(l, ' ', 0);
    let c2 = first_char_from(l, ' ', (c1 + 1) as nat);
    let c3 = first_char_from(l, ' ', (c2 + 1) as nat);
    if spec_mount_interesting(l) && c1 < l.len() && c2 < l.len() && c1 >= 5 {
        Some(
            (
                l.subrange(5, c1 as int),
                l.subrange(c1 + 1 as int, c2 as int),
                l.subrange(c2 + 1 as int, c3 as int),
            ),
        )
    } else {
        None
    }
}

/// The entries of a mounts text, in order.
pub open spec fn spec_mount_entries(lines: Seq<Seq<char>>) -> Seq<(Seq<char>, Seq<char>, Seq<char>)>
    decreases lines.len(),
{
    if lines.len() == 0 {
        Seq::empty()
    } else {
        (match spec_mount_entry(lines[0]) {
            Some(x) => seq![x],
            None => Seq::<(Seq<char>, Seq<char>, Seq<char>)>::empty(),
        }) + spec_mount_entries(lines.drop_first())
    }
}

proof fn lemma_mount_entries_push(lines: Seq<Seq<char>>, l: Seq<char>)
    ensures
        spec_mount_entries(lines.push(l)) == spec_mount_entries(lines) + (
        match spec_mount_entry(l) {
            Some(x) => seq![x],
            None => Seq::<(Seq<char>, Seq<char>, Seq<char>)>::empty(),
        }),
    decreases lines.len(),
{
    if lines.len() == 0 {
        reveal_with_fuel(spec_mount_entries, 2);
        assert(lines.push(l)[0] == l);
        assert(lines.push(l).drop_first() =~~= Seq::<Seq<char>>::empty());
        assert(spec_mount_entries(lines.push(l)) =~~= spec_mount_entries(lines) + (
        match spec_mount_entry(l) {
            Some(x) => seq![x],
            None => Seq::<(Seq<char>, Seq<char>, Seq<char>)>::empty(),
        }));
    } else {
        assert(lines.push(l)[0] == lines[0]);
        assert(lines.push(l).drop_first() =~~= lines.drop_first().push(l));
        lemma_mount_entries_push(lines.drop_first(), l);
        assert(spec_mount_entries(lines.push(l)) =~~= spec_mount_entries(lines) + (
        match spec_mount_entry(l) {
            Some(x) => seq![x],
            None => Seq::<(Seq<char>, Seq<char>, Seq<char>)>::empty(),
        }));
    }
}

fn mount_entry_of(line: &str) -> (r: Option<MountEntry>)
    ensures
        match r {
            Some(e) => spec_mount_entry(line@) == Some(
                (e.device@, e.mount_point@, e.file_system@),
            ),
            None => spec_mount_entry(line@).is_none(),
        },
{
    let n: usize = line.unicode_len();
    let lts: usize = find_non_space_from(line, 0);
    proof {
        lemma_first_non_space_from(line@, 0);
        assert(line@.subrange(lts as int, n as int) =~= line@.skip(lts as int));
    }
    let lt: &str = line.substring_char(lts, n);
    let interesting: bool = starts_with(lt, "/dev/sd") || starts_with(lt, "/dev/nvme")
        || starts_with(lt, "/dev/mapper/") || starts_with(lt, "/dev/root") || starts_with(
        lt,
        "/dev/mmcblk",
    );
    let c1: usize = find_char_from(line, ' ', 0);
    proof {
        lemma_first_char_from(line@, ' ', 0);
    }
    if !(interesting && c1 < n && c1 >= 5) {
        return None;
    }
    let c2: usize = find_char_from(line, ' ', c1 + 1);
    proof {
        lemma_first_char_from(line@, ' ', (c1 + 1) as nat);
    }
    if c2 >= n {
        return None;
    }
    let c3: usize = find_char_from(line, ' ', c2 + 1);
    proof {
        lemma_first_char_from(line@, ' ', (c2 + 1) as nat);
    }
    let device: &str = line.substring_char(5, c1);
    let mount_point: &str = line.substring_char(c1 + 1, c2);
    let file_system: &str = line.substring_char(c2 + 1, c3);
    Some(
        MountEntry {
            device: String::from_str(device),
            mount_point: String::from_str(mount_point),
            file_system: String::from_str(file_system),
        },
    )
}

/// Reads the interesting volume entries out of a `/proc/mounts` text.
pub fn parse_mounts(s: &str) -> (r: Vec<MountEntry>)
    requires
        s@.len() < usize::MAX,
    ensures
        r@.map_values(|e: MountEntry| (e.device@, e.mount_point@, e.file_system@))
            == spec_mount_entries(spec_split(s@, '\n')),
{
    let ghost all_lines = spec_split(s@, '\n');
    let n: usize = s.unicode_len();
    let mut out: Vec<MountEntry> = Vec::new();
    let ghost mut done: Seq<Seq<char>> = Seq::empty();
    let mut i: usize = 0;
    proof {
        assert(s@.skip(0) =~= s@);
        assert(done + spec_split(s@.skip(0), '\n') =~= all_lines);
        assert(out@.map_values(|e: MountEntry| (e.device@, e.mount_point@, e.file_system@))
            =~= spec_mount_entries(done));
    }
    while i <= n
        invariant
            i <= n + 1,
            n == s@.len(),
            n < usize::MAX,
            all_lines == spec_split(s@, '\n'),
            i <= n ==> done + spec_split(s@.skip(i as int), '\n') == all_lines,
            i == n + 1 ==> done == all_lines,
            out@.map_values(|e: MountEntry| (e.device@, e.mount_point@, e.file_system@))
                == spec_mount_entries(done),
        decreases n + 1 - i,
    {
        let j: usize = find_char_from(s, '\n', i);
        proof {
            lemma_first_char_from(s@, '\n', i as nat);
        }
        let line: &str = s.substring_char(i, j);
        proof {
            lemma_mount_entries_push(done, line@);
        }
        match mount_entry_of(line) {
            Some(e) => {
                out.push(e);
                proof {
                    assert(out@.map_values(
                        |e: MountEntry| (e.device@, e.mount_point@, e.file_system@),
                    ) =~= spec_mount_entries(done.push(line@)));
                }
            },
            None => {
                proof {
                    assert(out@.map_values(
                        |e: MountEntry| (e.device@, e.mount_point@, e.file_system@),
                    ) =~= spec_mount_entries(done.push(line@)));
                }
            },
        }
        proof {
            lemma_split_step(s@, i as nat, j as nat, '\n');
            done = done.push(line@);
        }
        i = j + 1;
        proof {
            if i <= n {
                assert(done + spec_split(s@.skip(i as int), '\n') =~= all_lines);
            } else {
                assert(done =~= all_lines);
            }
        }
    }
    out
}

} // verus!
