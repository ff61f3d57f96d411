//! HID devices with a LampArray interface.
use crate::order::comes_before;
use crate::order::is_sorted_order;
use crate::order::listed;
use crate::order::sort_positions;
use crate::order::sorted_order;
use crate::order::sorted_order_exists;
use crate::order::sorted_order_is_an_ascending_permutation;
use crate::order::sorts_ahead;
use crate::profile::LampArrayProfile;
use crate::text::characters;
use crate::text::find_mark;
use crate::text::hex_word;
use crate::text::lemma_length_before;
use crate::text::length_before;
use crate::text::parse_hex_word;
use crate::text::starts_with;
use crate::text::texts;
use vstd::prelude::*;
use vstd::slice::slice_subrange;

verus! {

pub const ASUS_VID: u16 = 0x0b05;

pub const ASUS_PID: u16 = 0x18f3;

/// The items that begin a LampArray interface: Usage Page Lighting and
/// Illumination (0x59), Usage LampArray (0x01).
pub open spec fn lamp_array_items() -> Seq<u8> {
    seq![0x05u8, 0x59u8, 0x09u8, 0x01u8]
}

/// Whether a report descriptor is that of a LampArray interface: it begins with
/// these items.
pub open spec fn describes_lamp_array(descriptor: Seq<u8>) -> bool {
    descriptor.len() >= 4 && descriptor.take(4) == lamp_array_items()
}

/// A LampArray interface begins with Usage Page Lighting and Illumination (0x59),
/// Usage LampArray (0x01). The short-item encoding is `05 59 09 01`.
pub fn is_lamp_array_descriptor(descriptor: &[u8]) -> (found: bool)
    ensures
        found == (descriptor@.len() >= 4 && descriptor@.take(4) == lamp_array_items()),
{
    if descriptor.len() < 4 {
        return false;
    }
    let ghost start = descriptor@.take(4);
    assert(start[0] == descriptor@[0] && start[1] == descriptor@[1]);
    assert(start[2] == descriptor@[2] && start[3] == descriptor@[3]);
    let found: bool = descriptor[0] == 0x05 && descriptor[1] == 0x59 && descriptor[2] == 0x09
        && descriptor[3] == 0x01;
    if found {
        assert(start =~= lamp_array_items());
    }
    found
}

/// Where the last segment of a path starts.
pub open spec fn last_segment_start(path: Seq<char>) -> nat
    decreases path.len(),
{
    if path.len() == 0 || path.last() == '/' {
        path.len()
    } else {
        last_segment_start(path.drop_last())
    }
}

/// The last name in a path. Empty segments and single dots are passed over; a
/// path that ends in two dots, or that has no name, has none.
pub open spec fn file_name(path: Seq<char>) -> Option<Seq<char>>
    decreases path.len(),
{
    proof {
        lemma_last_segment_bound(path);
    }
    let start = last_segment_start(path) as int;
    let segment = path.skip(start);
    if segment == seq!['.', '.'] {
        None
    } else if segment.len() > 0 && segment != seq!['.'] {
        Some(segment)
    } else if start == 0 {
        None
    } else {
        file_name(path.take(start - 1))
    }
}

pub proof fn lemma_last_segment_bound(path: Seq<char>)
    ensures
        last_segment_start(path) <= path.len(),
    decreases path.len(),
{
    if path.len() > 0 && path.last() != '/' {
        lemma_last_segment_bound(path.drop_last());
    }
}

proof fn lemma_last_segment_start(path: Seq<char>, start: int)
    requires
        0 <= start <= path.len(),
        forall|i: int| start <= i < path.len() ==> path[i] != '/',
        start == 0 || path[start - 1] == '/',
    ensures
        last_segment_start(path) == start,
    decreases path.len(),
{
    if path.len() > start {
        lemma_last_segment_start(path.drop_last(), start);
    }
}

fn find_file_name(path: &[char]) -> (range: Option<(usize, usize)>)
    ensures
        range matches Some((start, end)) ==> start <= end <= path@.len() && file_name(path@)
            == Some(path@.subrange(start as int, end as int)),
        range is None ==> file_name(path@) is None,
{
    let mut end: usize = path.len();
    assert(path@.take(end as int) =~= path@);
    loop
        invariant
            end <= path@.len(),
            file_name(path@.take(end as int)) == file_name(path@),
        decreases end,
    {
        let mut start: usize = end;
        while start > 0 && path[start - 1] != '/'
            invariant
                start <= end <= path@.len(),
                forall|i: int| start <= i < end ==> path@[i] != '/',
            decreases start,
        {
            start = start - 1;
        }
        let ghost part = path@.take(end as int);
        let ghost segment = part.skip(start as int);
        proof {
            lemma_last_segment_start(part, start as int);
            assert(segment =~= path@.subrange(start as int, end as int));
        }
        let length: usize = end - start;
        if length == 2 && path[start] == '.' && path[start + 1] == '.' {
            assert(segment =~= seq!['.', '.']);
            return None;
        }
        assert(segment != seq!['.', '.']) by {
            if segment == seq!['.', '.'] {
                assert(segment[0] == path@[start as int]);
                assert(segment[1] == path@[start + 1]);
            }
        }
        if length > 0 && !(length == 1 && path[start] == '.') {
            assert(segment != seq!['.']) by {
                if segment == seq!['.'] {
                    assert(segment[0] == path@[start as int]);
                }
            }
            return Some((start, end));
        }
        assert(segment.len() > 0 ==> segment =~= seq!['.']);
        if start == 0 {
            return None;
        }
        assert(part.take(start - 1) =~= path@.take(start - 1));
        end = start - 1;
    }
}

/// The file that holds the report descriptor of a hidraw device.
pub open spec fn descriptor_path(name: Seq<char>) -> Seq<char> {
    "/sys/class/hidraw/"@ + name + "/device/report_descriptor"@
}

/// The file that holds the report descriptor of the hidraw device at `path`.
/// There is none for a path without a file name.
pub fn hidraw_descriptor(path: &str) -> (file: Option<String>)
    ensures
        match file {
            Some(file) => file_name(path@) matches Some(name) && file@ == descriptor_path(name),
            None => file_name(path@) is None,
        },
{
    let chars: Vec<char> = characters(path);
    match find_file_name(chars.as_slice()) {
        Some((start, end)) => {
            let mut file: String = "/sys/class/hidraw/".to_owned();
            file.append(path.substring_char(start, end));
            file.append("/device/report_descriptor");
            Some(file)
        },
        None => None,
    }
}

/// The first line of a text, without its line ending.
pub open spec fn first_line(text: Seq<char>) -> Seq<char> {
    let end = length_before(text, '\n') as int;
    if end >= text.len() {
        text
    } else if end > 0 && text[end - 1] == '\r' {
        text.take(end - 1)
    } else {
        text.take(end)
    }
}

/// The lines of a text after the first.
pub open spec fn other_lines(text: Seq<char>) -> Seq<char> {
    let end = length_before(text, '\n') as int;
    if end >= text.len() {
        seq![]
    } else {
        text.skip(end + 1)
    }
}

/// What follows `key` on the first line that starts with it.
pub open spec fn value_of(key: Seq<char>, text: Seq<char>) -> Option<Seq<char>>
    decreases text.len(),
{
    if text.len() == 0 {
        None
    } else if key.is_prefix_of(first_line(text)) {
        Some(first_line(text).skip(key.len() as int))
    } else {
        value_of(key, other_lines(text))
    }
}

/// The field with this index, where colons stand between the fields.
pub open spec fn field(text: Seq<char>, index: nat) -> Option<Seq<char>>
    decreases index,
{
    let end = length_before(text, ':') as int;
    if index == 0 {
        Some(text.take(end))
    } else if end < text.len() {
        field(text.skip(end + 1), (index - 1) as nat)
    } else {
        None
    }
}

/// The number in a field.
pub open spec fn field_word(text: Seq<char>, index: nat) -> Option<u16> {
    match field(text, index) {
        Some(digits) => hex_word(digits),
        None => None,
    }
}

/// The vendor and product of a HID device: the second and the third field of
/// its ID, of which the first is the bus.
pub open spec fn hid_id(uevent: Seq<char>) -> Option<(u16, u16)> {
    match value_of("HID_ID="@, uevent) {
        Some(value) => match (field_word(value, 1), field_word(value, 2)) {
            (Some(vid), Some(pid)) => Some((vid, pid)),
            _ => None,
        },
        None => None,
    }
}

fn find_value<'a>(key: &[char], text: &'a [char]) -> (value: Option<&'a [char]>)
    ensures
        match value {
            Some(value) => value_of(key@, text@) == Some(value@),
            None => value_of(key@, text@) is None,
        },
{
    let mut rest: &'a [char] = text;
    while rest.len() > 0
        invariant
            value_of(key@, rest@) == value_of(key@, text@),
        decreases rest@.len(),
    {
        let end: usize = find_mark(rest, '\n');
        let line_end: usize = if end < rest.len() && end > 0 && rest[end - 1] == '\r' {
            end - 1
        } else {
            end
        };
        let line: &'a [char] = slice_subrange(rest, 0, line_end);
        assert(line@ =~= first_line(rest@));
        if starts_with(line, key) {
            let value: &'a [char] = slice_subrange(line, key.len(), line.len());
            assert(value@ =~= first_line(rest@).skip(key@.len() as int));
            return Some(value);
        }
        let next: usize = if end < rest.len() {
            end + 1
        } else {
            end
        };
        let others: &'a [char] = slice_subrange(rest, next, rest.len());
        assert(others@ =~= other_lines(rest@));
        rest = others;
    }
    None
}

fn find_field<'a>(text: &'a [char], index: usize) -> (part: Option<&'a [char]>)
    ensures
        match part {
            Some(part) => field(text@, index as nat) == Some(part@),
            None => field(text@, index as nat) is None,
        },
    decreases index,
{
    let end: usize = find_mark(text, ':');
    if index == 0 {
        let part: &'a [char] = slice_subrange(text, 0, end);
        assert(part@ =~= text@.take(end as int));
        Some(part)
    } else if end < text.len() {
        let rest: &'a [char] = slice_subrange(text, end + 1, text.len());
        assert(rest@ =~= text@.skip(end + 1));
        find_field(rest, index - 1)
    } else {
        None
    }
}

fn parse_field(text: &[char], index: usize) -> (word: Option<u16>)
    ensures
        word == field_word(text@, index as nat),
{
    match find_field(text, index) {
        Some(digits) => parse_hex_word(digits),
        None => None,
    }
}

/// Reads the vendor and product of a HID device from its `uevent` file.
pub fn parse_hid_id(uevent: &str) -> (id: Option<(u16, u16)>)
    ensures
        id == hid_id(uevent@),
{
    let chars: Vec<char> = characters(uevent);
    let key: Vec<char> = characters("HID_ID=");
    match find_value(key.as_slice(), chars.as_slice()) {
        Some(value) => match (parse_field(value, 1), parse_field(value, 2)) {
            (Some(vid), Some(pid)) => Some((vid, pid)),
            _ => None,
        },
        None => None,
    }
}

#[derive(Debug, Clone, PartialEq, Eq)]
pub struct DeviceCandidate {
    pub path: String,
    pub vid: u16,
    pub pid: u16,
    pub lamp_array: bool,
}

/// What a `DeviceCandidate` says.
pub struct Candidate {
    pub path: Seq<char>,
    pub vid: u16,
    pub pid: u16,
    pub lamp_array: bool,
}

impl View for DeviceCandidate {
    type V = Candidate;

    open spec fn view(&self) -> Candidate {
        Candidate {
            path: self.path@,
            vid: self.vid,
            pid: self.pid,
            lamp_array: self.lamp_array,
        }
    }
}

impl DeviceCandidate {
    fn copy(&self) -> (candidate: DeviceCandidate)
        ensures
            candidate@ == self@,
    {
        DeviceCandidate {
            path: self.path.clone(),
            vid: self.vid,
            pid: self.pid,
            lamp_array: self.lamp_array,
        }
    }
}

/// What the system tells of a hidraw device: its name, its `uevent` text and
/// its report descriptor.
#[derive(Debug, Clone, PartialEq, Eq)]
pub struct HidrawEntry {
    pub name: String,
    pub uevent: String,
    pub descriptor: Vec<u8>,
}

/// What a `HidrawEntry` says.
pub struct EntryInfo {
    pub name: Seq<char>,
    pub uevent: Seq<char>,
    pub descriptor: Seq<u8>,
}

impl View for HidrawEntry {
    type V = EntryInfo;

    open spec fn view(&self) -> EntryInfo {
        EntryInfo { name: self.name@, uevent: self.uevent@, descriptor: self.descriptor@ }
    }
}

/// The device behind an entry, if its ID can be read.
pub open spec fn candidate_of(entry: EntryInfo) -> Option<Candidate> {
    match hid_id(entry.uevent) {
        Some((vid, pid)) => Some(
            Candidate {
                path: "/dev/"@ + entry.name,
                vid,
                pid,
                lamp_array: describes_lamp_array(entry.descriptor),
            },
        ),
        None => None,
    }
}

/// The devices behind the entries, in their order.
pub open spec fn candidates_of(entries: Seq<EntryInfo>) -> Seq<Candidate>
    decreases entries.len(),
{
    if entries.len() == 0 {
        seq![]
    } else {
        let others = candidates_of(entries.drop_last());
        match candidate_of(entries.last()) {
            Some(candidate) => others.push(candidate),
            None => others,
        }
    }
}

/// What the entries say.
pub open spec fn entries_view(entries: Seq<HidrawEntry>) -> Seq<EntryInfo> {
    entries.map_values(|entry: HidrawEntry| entry@)
}

/// What the candidates say.
pub open spec fn candidates_view(candidates: Seq<DeviceCandidate>) -> Seq<Candidate> {
    candidates.map_values(|candidate: DeviceCandidate| candidate@)
}

/// The paths of the candidates.
pub open spec fn paths(candidates: Seq<Candidate>) -> Seq<Seq<char>> {
    candidates.map_values(|candidate: Candidate| candidate.path)
}

/// The candidates in the order of their paths.
pub open spec fn by_path(candidates: Seq<Candidate>) -> Seq<Candidate> {
    let order = sorted_order(paths(candidates));
    Seq::new(candidates.len(), |i: int| candidates[order[i] as int])
}

fn candidate(entry: &HidrawEntry) -> (candidate: Option<DeviceCandidate>)
    ensures
        match candidate {
            Some(candidate) => candidate_of(entry@) == Some(candidate@),
            None => candidate_of(entry@) is None,
        },
{
    match parse_hid_id(entry.uevent.as_str()) {
        Some((vid, pid)) => {
            let mut path: String = "/dev/".to_owned();
            path.append(entry.name.as_str());
            Some(
                DeviceCandidate {
                    path,
                    vid,
                    pid,
                    lamp_array: is_lamp_array_descriptor(entry.descriptor.as_slice()),
                },
            )
        },
        None => None,
    }
}

/// Lists the HID devices whose ID can be read, sorted by path.
pub fn discover_hidraw(entries: &[HidrawEntry]) -> (devices: Vec<DeviceCandidate>)
    ensures
        candidates_view(devices@) == by_path(candidates_of(entries_view(entries@))),
        is_sorted_order(
            paths(candidates_of(entries_view(entries@))),
            sorted_order(paths(candidates_of(entries_view(entries@)))),
        ),
{
    let ghost infos = entries_view(entries@);
    let mut found: Vec<DeviceCandidate> = Vec::new();
    let mut keys: Vec<String> = Vec::new();
    let mut i: usize = 0;
    assert(candidates_view(found@) =~= candidates_of(infos.take(0)));
    while i < entries.len()
        invariant
            i <= entries@.len(),
            infos == entries_view(entries@),
            candidates_view(found@) == candidates_of(infos.take(i as int)),
            keys@.len() == found@.len(),
            forall|k: int| 0 <= k < keys@.len() ==> (#[trigger] keys@[k])@ == found@[k].path@,
        decreases entries@.len() - i,
    {
        assert(infos.take(i + 1).drop_last() =~= infos.take(i as int));
        assert(infos.take(i + 1).last() == entries@[i as int]@);
        if let Some(device) = candidate(&entries[i]) {
            let ghost longer = candidates_view(found@).push(device@);
            keys.push(device.path.clone());
            found.push(device);
            assert(candidates_view(found@) =~= longer);
        }
        i = i + 1;
    }
    assert(infos.take(i as int) =~= infos);
    let ghost candidates = candidates_of(infos);
    assert(texts(keys@) =~= paths(candidates));
    let order: Vec<usize> = sort_positions(&keys);
    let mut devices: Vec<DeviceCandidate> = Vec::new();
    let mut at: usize = 0;
    while at < order.len()
        invariant
            at <= order@.len() == found@.len(),
            keys@.len() == found@.len(),
            is_sorted_order(texts(keys@), order@),
            devices@.len() == at,
            forall|k: int| 0 <= k < at ==> (#[trigger] devices@[k])@ == found@[order@[k] as int]@,
        decreases order@.len() - at,
    {
        devices.push(found[order[at]].copy());
        at = at + 1;
    }
    assert(candidates_view(devices@) =~= by_path(candidates));
    devices
}

/// Whether a profile accepts a device: one with a LampArray interface, and with
/// the vendor and the product that the profile names, if it names them.
pub open spec fn is_accepted(candidate: Candidate, profile: LampArrayProfile) -> bool {
    &&& candidate.lamp_array
    &&& profile.vid matches Some(vid) ==> candidate.vid == vid
    &&& profile.pid matches Some(pid) ==> candidate.pid == pid
}

impl DeviceCandidate {
    /// Whether `profile` accepts the device.
    pub fn is_accepted_by(&self, profile: &LampArrayProfile) -> (accepted: bool)
        ensures
            accepted == is_accepted(self@, *profile),
    {
        let vendor_fits: bool = match profile.vid {
            Some(vid) => self.vid == vid,
            None => true,
        };
        let product_fits: bool = match profile.pid {
            Some(pid) => self.pid == pid,
            None => true,
        };
        self.lamp_array && vendor_fits && product_fits
    }
}

proof fn lemma_candidates(entries: Seq<EntryInfo>, i: int)
    requires
        0 <= i < entries.len(),
    ensures
        candidates_of(entries).len() <= entries.len(),
        candidate_of(entries[i]) matches Some(candidate) ==> candidates_of(entries).contains(
            candidate,
        ),
    decreases entries.len(),
{
    let others = entries.drop_last();
    if i < others.len() {
        lemma_candidates(others, i);
        if let Some(candidate) = candidate_of(entries[i]) {
            let k = candidates_of(others).index_of(candidate);
            assert(candidates_of(entries)[k] == candidate);
        }
    } else {
        if others.len() > 0 {
            lemma_candidates(others, 0);
        }
        if let Some(candidate) = candidate_of(entries[i]) {
            assert(candidates_of(entries).last() == candidate);
        }
    }
}

/// Every device whose ID can be read is listed.
pub proof fn readable_devices_are_listed(entries: Seq<EntryInfo>, i: int)
    requires
        0 <= i < entries.len() <= usize::MAX,
    ensures
        candidate_of(entries[i]) matches Some(candidate) ==> by_path(
            candidates_of(entries),
        ).contains(candidate),
{
    lemma_candidates(entries, i);
    if let Some(candidate) = candidate_of(entries[i]) {
        let candidates = candidates_of(entries);
        let order = sorted_order(paths(candidates));
        sorted_order_exists(paths(candidates));
        let k = candidates.index_of(candidate);
        assert(listed(order, k));
        let at = choose|at: int| 0 <= at < order.len() && order[at] == k;
        assert(by_path(candidates)[at] == candidate);
    }
}

/// The devices are listed in the order of their paths.
pub proof fn listed_devices_are_sorted(candidates: Seq<Candidate>, i: int, j: int)
    requires
        candidates.len() <= usize::MAX,
        0 <= i < j < candidates.len(),
    ensures
        ({
            let first = by_path(candidates)[i].path;
            let second = by_path(candidates)[j].path;
            comes_before(first, second) || first == second
        }),
{
    let order = sorted_order(paths(candidates));
    sorted_order_exists(paths(candidates));
    assert(sorts_ahead(paths(candidates), order[i] as int, order[j] as int));
}

/// Finds the first device that `profile` accepts.
pub fn first_accepted(devices: &[DeviceCandidate], profile: &LampArrayProfile) -> (found: Option<
    usize,
>)
    ensures
        match found {
            Some(at) => at < devices@.len() && is_accepted(devices@[at as int]@, *profile)
                && forall|i: int| 0 <= i < at ==> !is_accepted((#[trigger] devices@[i])@, *profile),
            None => forall|i: int|
                0 <= i < devices@.len() ==> !is_accepted((#[trigger] devices@[i])@, *profile),
        },
{
    let mut i: usize = 0;
    while i < devices.len()
        invariant
            i <= devices@.len(),
            forall|k: int| 0 <= k < i ==> !is_accepted((#[trigger] devices@[k])@, *profile),
        decreases devices@.len() - i,
    {
        if devices[i].is_accepted_by(profile) {
            return Some(i);
        }
        i = i + 1;
    }
    None
}

/// A LampArray interface begins with these four bytes.
pub proof fn lamp_arrays_begin_with_their_items(descriptor: Seq<u8>)
    ensures
        describes_lamp_array(descriptor) <==> descriptor.len() >= 4 && descriptor[0] == 0x05
            && descriptor[1] == 0x59 && descriptor[2] == 0x09 && descriptor[3] == 0x01,
{
    if descriptor.len() >= 4 {
        let start = descriptor.take(4);
        assert(start[0] == descriptor[0] && start[1] == descriptor[1]);
        assert(start[2] == descriptor[2] && start[3] == descriptor[3]);
        if descriptor[0] == 0x05 && descriptor[1] == 0x59 && descriptor[2] == 0x09 && descriptor[3]
            == 0x01 {
            assert(start =~= lamp_array_items());
        }
    }
}

/// A name behind a slash is the file name of the path, whatever stands before,
/// and slashes or single dots after it do not matter. Two dots are no name.
pub proof fn file_names_stand_last(directory: Seq<char>, name: Seq<char>)
    requires
        name.len() > 0,
        forall|i: int| 0 <= i < name.len() ==> name[i] != '/',
    ensures
        name != seq!['.'] && name != seq!['.', '.'] ==> {
            &&& file_name(directory + seq!['/'] + name) == Some(name)
            &&& file_name(name) == Some(name)
        },
        name == seq!['.', '.'] ==> file_name(directory + seq!['/'] + name) is None && file_name(
            name,
        ) is None,
        file_name(directory + seq!['/']) == file_name(directory),
        file_name(directory + seq!['/', '.']) == file_name(directory),
        file_name(seq![]) is None,
        file_name(seq!['.']) is None,
{
    let path = directory + seq!['/'] + name;
    lemma_last_segment_start(path, directory.len() as int + 1);
    assert(path.skip(directory.len() as int + 1) =~= name);
    lemma_last_segment_start(name, 0);
    assert(name.skip(0) =~= name);
    let open = directory + seq!['/'];
    lemma_last_segment_start(open, open.len() as int);
    assert(open.skip(open.len() as int) =~= seq![]);
    assert(open.take(open.len() - 1) =~= directory);
    let dotted = directory + seq!['/', '.'];
    lemma_last_segment_start(dotted, directory.len() as int + 1);
    assert(dotted.skip(directory.len() as int + 1) =~= seq!['.']);
    assert(dotted.take(directory.len() as int) =~= directory);
    assert(seq!['.'] != seq!['.', '.']) by {
        assert(seq!['.'].len() == 1);
    }
    assert(Seq::<char>::empty() != seq!['.', '.']) by {
        assert(Seq::<char>::empty().len() == 0);
    }
    lemma_last_segment_start(seq!['.'], 0);
    assert(seq!['.'].skip(0) =~= seq!['.']);
    lemma_last_segment_start(Seq::<char>::empty(), 0);
    assert(Seq::<char>::empty().skip(0) =~= seq![]);
}

/// The report descriptor of a device lies below its name in the device class.
pub proof fn descriptors_lie_below_the_name(name: Seq<char>)
    ensures
        descriptor_path(name) == "/sys/class/hidraw/"@ + name + "/device/report_descriptor"@,
{
}

/// A line is looked at from its start, and the first that starts with the key
/// has the value. Lines before it that start otherwise do not matter, nor does
/// what follows; line ends are line feeds, with a carriage return before them or
/// without.
pub proof fn values_stand_on_their_line(
    key: Seq<char>,
    line: Seq<char>,
    value: Seq<char>,
    rest: Seq<char>,
)
    requires
        key.len() > 0,
        forall|i: int| 0 <= i < key.len() ==> key[i] != '\n' && key[i] != '\r',
        forall|i: int| 0 <= i < line.len() ==> line[i] != '\n',
        forall|i: int| 0 <= i < value.len() ==> value[i] != '\n',
    ensures
        value_of(key, key + value) == Some(value),
        value.len() == 0 || value.last() != '\r' ==> value_of(
            key,
            key + value + seq!['\n'] + rest,
        ) == Some(value),
        value_of(key, key + value + seq!['\r', '\n'] + rest) == Some(value),
        !key.is_prefix_of(line) ==> value_of(key, line + seq!['\n'] + rest) == value_of(key, rest),
        !key.is_prefix_of(line) ==> value_of(key, line) is None,
{
    reveal_with_fuel(value_of, 2);
    let last = key + value;
    assert forall|i: int| 0 <= i < last.len() implies last[i] != '\n' by {}
    lemma_length_before(last, '\n', last.len() as int);
    assert(first_line(last) == last);
    assert(key.is_prefix_of(last)) by {
        assert(last.take(key.len() as int) =~= key);
    }
    assert(last.skip(key.len() as int) =~= value);
    let fed = key + value + seq!['\n'] + rest;
    lemma_length_before(fed, '\n', last.len() as int);
    if value.len() > 0 {
        assert(fed[last.len() - 1] == value.last());
    } else {
        assert(fed[last.len() - 1] == key.last());
    }
    if value.len() == 0 || value.last() != '\r' {
        assert(first_line(fed) =~= last);
    }
    let returned = key + value + seq!['\r', '\n'] + rest;
    lemma_length_before(returned, '\n', last.len() as int + 1);
    assert(returned[last.len() as int] == '\r');
    assert(first_line(returned) =~= last);
    if !key.is_prefix_of(line) {
        let text = line + seq!['\n'] + rest;
        lemma_length_before(text, '\n', line.len() as int);
        assert(other_lines(text) =~= rest);
        let first = first_line(text);
        if key.is_prefix_of(first) {
            assert(first =~= line.take(first.len() as int));
            assert(key =~= line.take(key.len() as int));
        }
        lemma_length_before(line, '\n', line.len() as int);
        assert(first_line(line) == line);
    }
}

/// Fields end at colons: the first is what stands before the first colon, or
/// all, and the others are those of what stands behind it.
pub proof fn fields_end_at_colons(part: Seq<char>, rest: Seq<char>, index: nat)
    requires
        forall|i: int| 0 <= i < part.len() ==> part[i] != ':',
    ensures
        field(part, 0) == Some(part),
        field(part, index + 1) is None,
        field(part + seq![':'] + rest, 0) == Some(part),
        field(part + seq![':'] + rest, index + 1) == field(rest, index),
{
    lemma_length_before(part, ':', part.len() as int);
    assert(part.take(part.len() as int) =~= part);
    let text = part + seq![':'] + rest;
    lemma_length_before(text, ':', part.len() as int);
    assert(text.take(part.len() as int) =~= part);
    assert(text.skip(part.len() as int + 1) =~= rest);
}

/// The ID of a device is the second and the third field of the value behind
/// `HID_ID=`, each a hexadecimal number of sixteen bits. Where one of them is
/// missing or is none, there is no ID.
pub proof fn ids_are_the_second_and_third_field(uevent: Seq<char>)
    ensures
        ({
            let value = value_of("HID_ID="@, uevent);
            match hid_id(uevent) {
                Some((vid, pid)) => {
                    &&& value is Some
                    &&& field(value->Some_0, 1) is Some
                    &&& field(value->Some_0, 2) is Some
                    &&& hex_word(field(value->Some_0, 1)->Some_0) == Some(vid)
                    &&& hex_word(field(value->Some_0, 2)->Some_0) == Some(pid)
                },
                None => {
                    ||| value is None
                    ||| field(value->Some_0, 1) is None
                    ||| field(value->Some_0, 2) is None
                    ||| hex_word(field(value->Some_0, 1)->Some_0) is None
                    ||| hex_word(field(value->Some_0, 2)->Some_0) is None
                },
            }
        }),
{
}

/// A device has the name of its entry below `/dev`, the ID of its `uevent` text,
/// and a LampArray interface if its descriptor begins like one. One without an
/// ID is no device.
pub proof fn devices_are_what_their_entries_say(entry: EntryInfo)
    ensures
        match candidate_of(entry) {
            Some(candidate) => {
                &&& candidate.path == "/dev/"@ + entry.name
                &&& hid_id(entry.uevent) == Some((candidate.vid, candidate.pid))
                &&& candidate.lamp_array <==> describes_lamp_array(entry.descriptor)
            },
            None => hid_id(entry.uevent) is None,
        },
{
}

/// Nothing is listed but the devices of the entries, each once: there is one
/// for each entry whose ID can be read, and each listed device is that of an
/// entry of its own.
pub proof fn only_entries_are_listed(entries: Seq<EntryInfo>) -> (sources: Seq<int>)
    requires
        entries.len() <= usize::MAX,
    ensures
        ({
            let listed = by_path(candidates_of(entries));
            &&& sources.len() == listed.len()
            &&& forall|i: int|
                0 <= i < sources.len() ==> {
                    &&& 0 <= #[trigger] sources[i] < entries.len()
                    &&& candidate_of(entries[sources[i]]) == Some(listed[i])
                }
            &&& forall|i: int, j: int|
                0 <= i < j < sources.len() ==> #[trigger] sources[i] != #[trigger] sources[j]
            &&& forall|k: int|
                0 <= k < entries.len() && candidate_of(#[trigger] entries[k]) is Some
                    ==> sources.contains(k)
        }),
{
    let candidates = candidates_of(entries);
    let found = lemma_sources(entries);
    let order = sorted_order(paths(candidates));
    sorted_order_exists(paths(candidates));
    let sources = Seq::new(order.len(), |i: int| found[order[i] as int]);
    let listed_devices = by_path(candidates);
    assert forall|i: int| 0 <= i < sources.len() implies 0 <= #[trigger] sources[i] < entries.len()
        && candidate_of(entries[sources[i]]) == Some(listed_devices[i]) by {
        assert(order[i] < paths(candidates).len());
    }
    assert forall|i: int, j: int| 0 <= i < j < sources.len() implies #[trigger] sources[i]
        != #[trigger] sources[j] by {
        sorted_order_is_an_ascending_permutation(paths(candidates), i, j);
        let (a, b) = (order[i] as int, order[j] as int);
        if a < b {
            assert(found[a] < found[b]);
        } else {
            assert(found[b] < found[a]);
        }
    }
    assert forall|k: int|
        0 <= k < entries.len() && candidate_of(
            #[trigger] entries[k],
        ) is Some implies sources.contains(k) by {
        assert(found.contains(k));
        let at = found.index_of(k);
        assert(listed(order, at));
        let i = choose|i: int| 0 <= i < order.len() && order[i] == at;
        assert(sources[i] == k);
    }
    sources
}

proof fn lemma_sources(entries: Seq<EntryInfo>) -> (found: Seq<int>)
    ensures
        found.len() == candidates_of(entries).len() <= entries.len(),
        forall|i: int|
            0 <= i < found.len() ==> 0 <= #[trigger] found[i] < entries.len() && candidate_of(
                entries[found[i]],
            ) == Some(candidates_of(entries)[i]),
        forall|i: int, j: int|
            0 <= i < j < found.len() ==> #[trigger] found[i] < #[trigger] found[j],
        forall|k: int|
            0 <= k < entries.len() && candidate_of(#[trigger] entries[k]) is Some
                ==> found.contains(k),
    decreases entries.len(),
{
    if entries.len() == 0 {
        seq![]
    } else {
        let others = entries.drop_last();
        let last = entries.len() - 1;
        let shorter = lemma_sources(others);
        let found = if candidate_of(entries.last()) is Some {
            shorter.push(last)
        } else {
            shorter
        };
        assert forall|i: int| 0 <= i < found.len() implies 0 <= #[trigger] found[i] < entries.len()
            && candidate_of(entries[found[i]]) == Some(candidates_of(entries)[i]) by {
            if i < shorter.len() {
                assert(found[i] == shorter[i]);
                assert(others[shorter[i]] == entries[shorter[i]]);
            }
        }
        assert forall|k: int|
            0 <= k < entries.len() && candidate_of(
                #[trigger] entries[k],
            ) is Some implies found.contains(k) by {
            if k < last {
                assert(others[k] == entries[k]);
                let at = shorter.index_of(k);
                assert(found[at] == k);
            } else {
                assert(found[shorter.len() as int] == k);
            }
        }
        found
    }
}

/// A profile accepts LampArrays only, and all of them but those with another
/// vendor or another product than it names.
pub proof fn profiles_accept_by_their_ids(candidate: Candidate, profile: LampArrayProfile)
    ensures
        is_accepted(candidate, profile) <==> candidate.lamp_array && (profile.vid is None
            || profile.vid == Some(candidate.vid)) && (profile.pid is None || profile.pid == Some(
            candidate.pid,
        )),
{
}

/// Entries and candidates are taken for what they are, one for one.
pub proof fn devices_say_what_they_hold(
    entries: Seq<HidrawEntry>,
    candidates: Seq<DeviceCandidate>,
    i: int,
)
    ensures
        entries_view(entries).len() == entries.len(),
        0 <= i < entries.len() ==> {
            let entry = entries_view(entries)[i];
            &&& entry.name == entries[i].name@
            &&& entry.uevent == entries[i].uevent@
            &&& entry.descriptor == entries[i].descriptor@
        },
        candidates_view(candidates).len() == candidates.len(),
        0 <= i < candidates.len() ==> {
            let candidate = candidates_view(candidates)[i];
            &&& candidate.path == candidates[i].path@
            &&& candidate.vid == candidates[i].vid
            &&& candidate.pid == candidates[i].pid
            &&& candidate.lamp_array == candidates[i].lamp_array
        },
{
}

} // verus!
