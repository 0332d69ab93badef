//! Recognising the partitions of a block device among the system's partition
//! paths: `/dev/sda1` belongs to `sda`, `/dev/sdai` does not.

use vstd::prelude::*;

verus! {

/// The last component of `path` as `std::path::Path::file_name` gives it, if any.
pub uninterp spec fn file_name_of(path: Seq<char>) -> Option<Seq<char>>;

/// Whether `c` is an ASCII decimal digit.
pub open spec fn is_digit(c: char) -> bool {
    '0' <= c && c <= '9'
}

/// The value of a string of decimal digits.
pub open spec fn digits_value(s: Seq<char>) -> nat
    decreases s.len(),
{
    if s.len() == 0 {
        0
    } else {
        digits_value(s.drop_last()) * 10 + (s.last() as u32 - '0' as u32) as nat
    }
}

/// The digits of a decimal literal without its optional leading `+`.
pub open spec fn unsigned_digits(s: Seq<char>) -> Seq<char> {
    if s.len() > 0 && s[0] == '+' {
        s.drop_first()
    } else {
        s
    }
}

/// Whether `s` is a literal that `usize`'s `FromStr` accepts: an optional `+`
/// and at least one decimal digit, with a value that fits.
pub open spec fn is_usize_literal(s: Seq<char>) -> bool {
    let d = unsigned_digits(s);
    &&& d.len() > 0
    &&& forall|i: int| 0 <= i < d.len() ==> is_digit(#[trigger] d[i])
    &&& digits_value(d) <= usize::MAX
}

/// Whether the partition at `path` belongs to the device named `device_name`:
/// its file name is the device's name followed by a partition number.
pub open spec fn is_child_partition(device_name: Seq<char>, path: Seq<char>) -> bool {
    match file_name_of(path) {
        Some(name) => device_name.is_prefix_of(name) && is_usize_literal(
            name.subrange(device_name.len() as int, name.len() as int),
        ),
        None => false,
    }
}

/// The paths among `paths` that are partitions of `device_name`, in order.
pub open spec fn child_paths(device_name: Seq<char>, paths: Seq<Seq<char>>) -> Seq<Seq<char>>
    decreases paths.len(),
{
    if paths.len() == 0 {
        Seq::empty()
    } else {
        let prev = child_paths(device_name, paths.drop_last());
        if is_child_partition(device_name, paths.last()) {
            prev.push(paths.last())
        } else {
            prev
        }
    }
}

/// Relies on `std::path::Path::file_name` and `OsStr::to_string_lossy`: the
/// final component of the path.
#[verifier::external_body]
fn file_name(path: &str) -> (r: Option<String>)
    ensures
        r matches Some(n) ==> file_name_of(path@) == Some(n@),
        r is None ==> file_name_of(path@) is None,
{
    std::path::Path::new(path).file_name().map(|n| n.to_string_lossy().into_owned())
}

/// Relies on `str::strip_prefix`: the rest of `s` after `prefix`, if `s`
/// starts with it.
#[verifier::external_body]
fn strip_prefix(s: &str, prefix: &str) -> (r: Option<String>)
    ensures
        r matches Some(rest) ==> s@ == prefix@ + rest@,
        r is None ==> !prefix@.is_prefix_of(s@),
{
    s.strip_prefix(prefix).map(|rest| rest.to_string())
}

/// Relies on `usize`'s `FromStr`: whether `s` is a decimal literal of a `usize`.
#[verifier::external_body]
fn parse_usize(s: &str) -> (r: Option<usize>)
    ensures
        r is Some <==> is_usize_literal(s@),
        r matches Some(v) ==> v == digits_value(unsigned_digits(s@)),
{
    s.parse::<usize>().ok()
}

/// Whether the partition at `path` belongs to the device named `device_name`.
pub fn is_partition_of(device_name: &str, path: &str) -> (r: bool)
    ensures
        r == is_child_partition(device_name@, path@),
{
    match file_name(path) {
        Some(name) => match strip_prefix(name.as_str(), device_name) {
            Some(rest) => {
                assert(rest@ =~= name@.subrange(device_name@.len() as int, name@.len() as int));
                parse_usize(rest.as_str()).is_some()
            },
            None => false,
        },
        None => false,
    }
}

/// The partitions among `block_partitions` that belong to the device named
/// `device_name`, in their order.
pub fn child_partitions(device_name: &str, block_partitions: &Vec<String>) -> (r: Vec<String>)
    ensures
        r@.map_values(|p: String| p@) == child_paths(
            device_name@,
            block_partitions@.map_values(|p: String| p@),
        ),
{
    let ghost paths = block_partitions@.map_values(|p: String| p@);
    let mut out: Vec<String> = Vec::new();
    let mut i: usize = 0;
    while i < block_partitions.len()
        invariant
            i <= block_partitions@.len(),
            paths == block_partitions@.map_values(|p: String| p@),
            out@.map_values(|p: String| p@) == child_paths(
                device_name@,
                paths.subrange(0, i as int),
            ),
        decreases block_partitions@.len() - i,
    {
        let path = &block_partitions[i];
        assert(paths.subrange(0, i + 1).drop_last() =~= paths.subrange(0, i as int));
        if is_partition_of(device_name, path.as_str()) {
            out.push(path.clone());
            assert(out@.map_values(|p: String| p@) =~= child_paths(
                device_name@,
                paths.subrange(0, i as int),
            ).push(path@));
        }
        i = i + 1;
    }
    assert(paths.subrange(0, i as int) =~= paths);
    out
}

} // verus!
