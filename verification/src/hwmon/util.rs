//! What the hwmon modules share: a device directory as it was read, and the short
//! identifier of a device.

use crate::text;
use crate::text::{chars_of, split, str_eq};
use vstd::prelude::*;
use vstd::string::*;

verus! {

/// A file of a directory, and what reading it gave: its text, or why it could not be
/// read.
#[derive(Debug)]
pub struct SysfsFile {
    pub name: String,
    pub content: Result<String, String>,
}

/// The `device` link of a directory.
#[derive(Debug)]
pub enum DeviceLink {
    /// There is none.
    Absent,
    /// There is one, and it leads nowhere that could be told.
    Unresolved,
    /// Where it leads.
    Target(String),
}

/// A directory under the hwmon root, as it was read.
#[derive(Debug)]
pub struct HwmonDevice {
    /// The name of the directory.
    pub name: String,
    /// Its path.
    pub path: String,
    /// The text of its `name` file, or why it could not be read.
    pub chip: Result<String, String>,
    /// Its `device` link.
    pub device: DeviceLink,
    /// Its files, or why they could not be listed.
    pub files: Result<Vec<SysfsFile>, String>,
    /// Whether the directory was still there after it was read.
    pub still_there: bool,
}

/// The last component of a path that is neither empty nor a single dot.
pub open spec fn last_component(parts: Seq<Seq<char>>) -> Option<Seq<char>>
    decreases parts.len(),
{
    if parts.len() == 0 {
        None
    } else if parts.last() == ""@ || parts.last() == "."@ {
        last_component(parts.drop_last())
    } else {
        Some(parts.last())
    }
}

/// The name of the file that a path leads to: its last component, unless that leads up.
pub open spec fn file_name_of(path: Seq<char>) -> Option<Seq<char>> {
    match last_component(text::pieces(path, '/')) {
        Some(c) => if c == ".."@ {
            None
        } else {
            Some(c)
        },
        None => None,
    }
}

/// The name of the file that a path leads to.
pub fn file_name<'a>(path: &'a str) -> (r: Option<&'a str>)
    ensures
        text::opt_str(r) == file_name_of(path@),
{
    let parts: Vec<&'a str> = split(path, '/');
    let ghost all = text::texts(parts@);
    let mut n: usize = parts.len();
    assert(all.take(n as int) =~= all);
    while n > 0
        invariant
            n <= parts@.len(),
            all == text::texts(parts@),
            all == text::pieces(path@, '/'),
            last_component(all) == last_component(all.take(n as int)),
        decreases n,
    {
        let part: &'a str = parts[n - 1];
        proof {
            assert(all.take(n as int).last() == part@);
            assert(all.take(n as int).drop_last() =~= all.take(n - 1));
        }
        if !str_eq(part, "") && !str_eq(part, ".") {
            if str_eq(part, "..") {
                return None;
            }
            return Some(part);
        }
        n -= 1;
    }
    None
}

/// A path without the slashes and the single dots at its end that name nothing.
pub open spec fn without_tail(path: Seq<char>) -> Seq<char>
    decreases path.len(),
{
    if path.len() > 0 && path.last() == '/' {
        without_tail(path.drop_last())
    } else if path.len() > 1 && path.last() == '.' && path[path.len() - 2] == '/' {
        without_tail(path.drop_last())
    } else {
        path
    }
}

/// What comes before the last slash of a path, with that slash; nothing where there is
/// none.
pub open spec fn up_to_last_slash(path: Seq<char>) -> Seq<char>
    decreases path.len(),
{
    if path.len() == 0 || path.last() == '/' {
        path
    } else {
        up_to_last_slash(path.drop_last())
    }
}

/// The path of the directory that a path stands in; there is none for a path that names
/// nothing.
pub open spec fn parent_of(path: Seq<char>) -> Option<Seq<char>> {
    let own = without_tail(path);
    let above = up_to_last_slash(own);
    if own.len() == 0 {
        None
    } else if above.len() > 0 && without_tail(above).len() == 0 {
        Some("/"@)
    } else {
        Some(without_tail(above))
    }
}

fn end_without_tail(v: &Vec<char>, n: usize) -> (r: usize)
    requires
        n <= v@.len(),
    ensures
        r <= n,
        without_tail(v@.take(n as int)) == v@.take(r as int),
{
    let mut k: usize = n;
    while k > 0 && (v[k - 1] == '/' || (k > 1 && v[k - 1] == '.' && v[k - 2] == '/'))
        invariant
            k <= n <= v@.len(),
            without_tail(v@.take(n as int)) == without_tail(v@.take(k as int)),
        decreases k,
    {
        assert(v@.take(k as int).drop_last() =~= v@.take(k - 1));
        k -= 1;
    }
    k
}

/// `Path::parent`: the path of the directory that a path stands in.
pub fn parent_path(path: &str) -> (r: Option<String>)
    ensures
        text::opt_text(r) == parent_of(path@),
{
    let v: Vec<char> = chars_of(path);
    assert(path@.take(v@.len() as int) =~= path@);
    let n: usize = end_without_tail(&v, v.len());
    if n == 0 {
        return None;
    }
    let ghost own = path@.take(n as int);
    let mut m: usize = n;
    assert(own.take(m as int) =~= own);
    while m > 0 && v[m - 1] != '/'
        invariant
            m <= n <= v@.len(),
            v@ == path@,
            own == path@.take(n as int),
            up_to_last_slash(own) == up_to_last_slash(own.take(m as int)),
        decreases m,
    {
        assert(own.take(m as int).drop_last() =~= own.take(m - 1));
        m -= 1;
    }
    assert(up_to_last_slash(own) == own.take(m as int));
    assert(own.take(m as int) =~= path@.take(m as int));
    let k: usize = end_without_tail(&v, m);
    if m > 0 && k == 0 {
        return Some("/".to_owned());
    }
    assert(path@.take(k as int) =~= path@.subrange(0, k as int));
    Some(path.substring_char(0, k).to_owned())
}

/// The short identifier of the device that a path leads to: the last component of the
/// path, which for a PCI device is its address. `unknown` where the path names none.
pub open spec fn device_id_of(path: Seq<char>) -> Seq<char> {
    match file_name_of(path) {
        Some(c) => c,
        None => "unknown"@,
    }
}

/// The short identifier of the device that a path leads to.
pub fn device_id_from_path(path: &str) -> (r: String)
    ensures
        r@ == device_id_of(path@),
{
    match file_name(path) {
        Some(c) => c.to_owned(),
        None => "unknown".to_owned(),
    }
}

/// The identifier that a `device` link gives.
pub open spec fn linked_id(device: DeviceLink) -> Seq<char> {
    match device {
        DeviceLink::Absent => "nodev"@,
        DeviceLink::Unresolved => "unknown"@,
        DeviceLink::Target(path) => device_id_of(path@),
    }
}

/// The identifier that a `device` link gives.
pub fn resolve_device_id(device: &DeviceLink) -> (r: String)
    ensures
        r@ == linked_id(*device),
{
    match device {
        DeviceLink::Absent => "nodev".to_owned(),
        DeviceLink::Unresolved => "unknown".to_owned(),
        DeviceLink::Target(path) => device_id_from_path(path.as_str()),
    }
}

/// The first file of a name.
pub open spec fn find_file(files: Seq<SysfsFile>, name: Seq<char>) -> Option<SysfsFile>
    decreases files.len(),
{
    if files.len() == 0 {
        None
    } else if files[0].name@ == name {
        Some(files[0])
    } else {
        find_file(files.skip(1), name)
    }
}

/// The text of the file of a name, where there is one that could be read.
pub open spec fn file_text(files: Seq<SysfsFile>, name: Seq<char>) -> Option<Seq<char>> {
    match find_file(files, name) {
        Some(f) => match f.content {
            Ok(t) => Some(t@),
            Err(e) => None,
        },
        None => None,
    }
}

/// The first file of a name.
pub fn file_named<'a>(files: &'a Vec<SysfsFile>, name: &str) -> (r: Option<&'a SysfsFile>)
    ensures
        match r {
            Some(f) => find_file(files@, name@) == Some(*f),
            None => find_file(files@, name@) is None,
        },
{
    let mut i: usize = 0;
    assert(files@.skip(0) =~= files@);
    while i < files.len()
        invariant
            i <= files@.len(),
            find_file(files@, name@) == find_file(files@.skip(i as int), name@),
        decreases files@.len() - i,
    {
        assert(files@.skip(i as int).skip(1) =~= files@.skip(i + 1));
        if str_eq(files[i].name.as_str(), name) {
            return Some(&files[i]);
        }
        i += 1;
    }
    None
}

/// The text of the file of a name, where there is one that could be read.
pub fn text_of_file<'a>(files: &'a Vec<SysfsFile>, name: &str) -> (r: Option<&'a str>)
    ensures
        text::opt_str(r) == file_text(files@, name@),
{
    match file_named(files, name) {
        Some(f) => match &f.content {
            Ok(t) => Some(t.as_str()),
            Err(_) => None,
        },
        None => None,
    }
}

/// The names of files.
pub open spec fn file_names(files: Seq<SysfsFile>) -> Seq<Seq<char>> {
    files.map_values(|f: SysfsFile| f.name@)
}

/// The names of files, in order.
pub open spec fn ordered_names(files: Seq<SysfsFile>) -> Seq<Seq<char>> {
    let names = file_names(files);
    text::order_of(names).map_values(|i: int| names[i])
}

/// The names of files, in order.
pub fn names_in_order<'a>(files: &'a Vec<SysfsFile>) -> (r: Vec<&'a str>)
    ensures
        text::texts(r@) == ordered_names(files@),
{
    let mut names: Vec<String> = Vec::new();
    let mut i: usize = 0;
    while i < files.len()
        invariant
            i <= files@.len(),
            text::strings(names@) == file_names(files@).take(i as int),
        decreases files@.len() - i,
    {
        let ghost was = text::strings(names@);
        names.push(files[i].name.clone());
        proof {
            assert(text::strings(names@) =~= was.push(files@[i as int].name@));
            assert(file_names(files@).take(i + 1) =~= file_names(files@).take(i as int).push(files@[i as int].name@));
        }
        i += 1;
    }
    assert(file_names(files@).take(i as int) =~= file_names(files@));
    let order: Vec<usize> = text::sorted_positions(&names);
    let mut r: Vec<&'a str> = Vec::new();
    let mut k: usize = 0;
    assert(text::positions(order@).len() == order@.len());
    assert(text::strings(names@).len() == names@.len());
    while k < order.len()
        invariant
            k <= order@.len(),
            text::positions(order@) == text::order_of(file_names(files@)),
            text::positions(order@).len() == order@.len(),
            forall|j: int| 0 <= j < order@.len() ==> #[trigger] order@[j] < files@.len(),
            text::texts(r@) == ordered_names(files@).take(k as int),
        decreases order@.len() - k,
    {
        let at: usize = order[k];
        let ghost was = text::texts(r@);
        r.push(files[at].name.as_str());
        proof {
            let all = ordered_names(files@);
            assert(text::texts(r@) =~= was.push(files@[at as int].name@));
            assert(all.take(k + 1) =~= all.take(k as int).push(all[k as int]));
            assert(text::positions(order@)[k as int] == at as int);
            assert(ordered_names(files@)[k as int] == files@[at as int].name@);
        }
        k += 1;
    }
    assert(ordered_names(files@).take(k as int) =~= ordered_names(files@));
    r
}

/// The names of device directories.
pub open spec fn device_names(devices: Seq<HwmonDevice>) -> Seq<Seq<char>> {
    devices.map_values(|d: HwmonDevice| d.name@)
}

/// Device directories in the order of their names.
pub open spec fn ordered_devices(devices: Seq<HwmonDevice>) -> Seq<HwmonDevice> {
    text::order_of(device_names(devices)).map_values(|i: int| devices[i])
}

/// The positions of device directories in the order of their names.
pub fn device_order(devices: &Vec<HwmonDevice>) -> (r: Vec<usize>)
    ensures
        text::positions(r@) == text::order_of(device_names(devices@)),
        r@.len() == devices@.len(),
        ordered_devices(devices@).len() == devices@.len(),
        forall|i: int| 0 <= i < r@.len() ==> #[trigger] r@[i] < devices@.len(),
        forall|i: int|
            0 <= i < r@.len() ==> #[trigger] ordered_devices(devices@)[i] == devices@[r@[i] as int],
{
    let mut names: Vec<String> = Vec::new();
    let mut i: usize = 0;
    while i < devices.len()
        invariant
            i <= devices@.len(),
            text::strings(names@) == device_names(devices@).take(i as int),
        decreases devices@.len() - i,
    {
        let ghost was = text::strings(names@);
        names.push(devices[i].name.clone());
        proof {
            assert(text::strings(names@) =~= was.push(devices@[i as int].name@));
            assert(device_names(devices@).take(i + 1) =~= device_names(devices@).take(i as int).push(devices@[i as int].name@));
        }
        i += 1;
    }
    assert(device_names(devices@).take(i as int) =~= device_names(devices@));
    assert(text::strings(names@).len() == names@.len());
    let r: Vec<usize> = text::sorted_positions(&names);
    assert(text::positions(r@).len() == r@.len());
    assert forall|k: int| 0 <= k < r@.len() implies #[trigger] ordered_devices(devices@)[k]
        == devices@[r@[k] as int] by {
        assert(text::positions(r@)[k] == r@[k] as int);
    }
    r
}

// ---------------------------------------------------------------------------
// Laws
// ---------------------------------------------------------------------------

/// The name of the file that a path leads to is what stands behind its last slash; slashes
/// and single dots behind it change nothing.
pub proof fn a_path_leads_to_its_last_component(dir: Seq<char>, name: Seq<char>)
    requires
        name.len() > 0,
        !name.contains('/'),
        name != "."@,
        name != ".."@,
    ensures
        file_name_of(dir + seq!['/'] + name) == Some(name),
        file_name_of(name) == Some(name),
        file_name_of(dir + seq!['/'] + name + seq!['/']) == Some(name),
        device_id_of(dir + seq!['/'] + name) == name,
        linked_id(DeviceLink::Absent) == "nodev"@,
        linked_id(DeviceLink::Unresolved) == "unknown"@,
{
    reveal_strlit("");
    lemma_pieces_end(dir, name);
    text::pieces_of_joined(name, '/', name);
    let p = text::pieces(dir + seq!['/'] + name, '/');
    assert(p.last() == name);
    let q = text::pieces(name, '/');
    assert(q.last() == name);
    let d = dir + seq!['/'] + name;
    lemma_pieces_end(d, Seq::empty());
    assert(d + seq!['/'] + Seq::<char>::empty() =~= dir + seq!['/'] + name + seq!['/']);
    let r = text::pieces(d + seq!['/'], '/');
    assert(d + seq!['/'] =~= dir + seq!['/'] + name + seq!['/']);
    assert(r.last() =~= Seq::<char>::empty());
    assert(""@ =~= Seq::<char>::empty());
    assert(r.drop_last() =~= p);
}

proof fn lemma_pieces_end(dir: Seq<char>, name: Seq<char>)
    requires
        !name.contains('/'),
    ensures
        text::pieces(dir + seq!['/'] + name, '/') == text::pieces(dir, '/').push(name),
    decreases dir.len(),
{
    let s = dir + seq!['/'] + name;
    if dir.contains('/') {
        let i = text::index_of(dir, '/');
        lemma_first_slash(dir);
        let head = dir.take(i);
        let rest = dir.skip(i + 1);
        assert(!head.contains('/')) by {
            if head.contains('/') {
                let k = choose|k: int| 0 <= k < head.len() && head[k] == '/';
                assert(dir[k] == '/');
            }
        }
        assert(dir =~= head + seq!['/'] + rest);
        text::pieces_of_joined(head, '/', rest);
        lemma_pieces_end(rest, name);
        let tail = rest + seq!['/'] + name;
        assert(s =~= head + seq!['/'] + tail);
        text::pieces_of_joined(head, '/', tail);
        assert(text::pieces(s, '/') =~= text::pieces(dir, '/').push(name));
    } else {
        text::pieces_of_joined(dir, '/', name);
        text::pieces_of_joined(name, '/', dir);
        assert(text::pieces(s, '/') =~= text::pieces(dir, '/').push(name));
    }
}

proof fn lemma_first_slash(s: Seq<char>)
    requires
        s.contains('/'),
    ensures
        0 <= text::index_of(s, '/') < s.len(),
        s[text::index_of(s, '/')] == '/',
        forall|k: int| 0 <= k < text::index_of(s, '/') ==> s[k] != '/',
    decreases s.len(),
{
    if s[0] != '/' {
        let k = choose|k: int| 0 <= k < s.len() && s[k] == '/';
        assert(s.skip(1)[k - 1] == '/');
        lemma_first_slash(s.skip(1));
        assert forall|k: int| 0 <= k < text::index_of(s, '/') implies s[k] != '/' by {
            if k > 0 {
                assert(s.skip(1)[k - 1] == s[k]);
            }
        }
    }
}

/// The directory that a path stands in is what comes before its last slash.
pub proof fn a_file_stands_in_its_directory(dir: Seq<char>, name: Seq<char>)
    requires
        dir.len() > 0,
        dir.last() != '/',
        dir.last() != '.',
        name.len() > 0,
        !name.contains('/'),
        name.last() != '.',
    ensures
        parent_of(dir + seq!['/'] + name) == Some(dir),
{
    let path = dir + seq!['/'] + name;
    assert(path.last() == name.last());
    assert(name[name.len() - 1] != '/') by {
        assert(name.contains(name[name.len() - 1]));
    }
    assert(without_tail(path) == path);
    lemma_up_to(dir + seq!['/'], name);
    let above = dir + seq!['/'];
    assert(above.last() == '/');
    assert(above.drop_last() =~= dir);
    assert(without_tail(above) == without_tail(dir));
}

proof fn lemma_up_to(above: Seq<char>, name: Seq<char>)
    requires
        above.len() > 0,
        above.last() == '/',
        !name.contains('/'),
    ensures
        up_to_last_slash(above + name) == above,
    decreases name.len(),
{
    let s = above + name;
    if name.len() == 0 {
        assert(s =~= above);
    } else {
        assert(name.contains(name[name.len() - 1]));
        assert(s.last() == name[name.len() - 1]);
        let n = name.drop_last();
        assert(s.drop_last() =~= above + n);
        assert(!n.contains('/')) by {
            if n.contains('/') {
                let k = choose|k: int| 0 <= k < n.len() && n[k] == '/';
                assert(name[k] == '/');
            }
        }
        lemma_up_to(above, n);
    }
}

/// A file is found by its whole name: the first that has it, and none where none has.
pub proof fn a_file_is_found_by_its_name(files: Seq<SysfsFile>, name: Seq<char>, i: int)
    ensures
        find_file(files, name) is None <==> forall|k: int|
            0 <= k < files.len() ==> (#[trigger] files[k]).name@ != name,
        0 <= i < files.len() && files[i].name@ == name && (forall|k: int|
            0 <= k < i ==> (#[trigger] files[k]).name@ != name) ==> find_file(files, name) == Some(
            files[i],
        ),
        find_file(files, name) matches Some(f) ==> f.name@ == name,
    decreases files.len(),
{
    if files.len() > 0 {
        let rest = files.skip(1);
        a_file_is_found_by_its_name(rest, name, i - 1);
        assert forall|k: int| 0 <= k < rest.len() implies #[trigger] rest[k] == files[k + 1] by {}
        if files[0].name@ != name {
            if find_file(files, name) is None {
                assert forall|k: int| 0 <= k < files.len() implies (
                #[trigger] files[k]).name@ != name by {
                    if k > 0 {
                        assert(rest[k - 1].name@ != name);
                    }
                }
            }
            if i > 0 && i < files.len() {
                assert(rest[i - 1] == files[i]);
            }
        }
    }
}

/// The text of a file is what reading it gave, and nothing where that failed.
pub proof fn a_file_has_the_text_that_was_read(files: Seq<SysfsFile>, name: Seq<char>)
    ensures
        match find_file(files, name) {
            Some(f) => match f.content {
                Ok(t) => file_text(files, name) == Some(t@),
                Err(_) => file_text(files, name) is None,
            },
            None => file_text(files, name) is None,
        },
{
}

/// The names of files come in order, and each as often as it is there; so do directories.
pub proof fn names_come_in_order(files: Seq<SysfsFile>, devices: Seq<HwmonDevice>, i: int, j: int)
    ensures
        ordered_names(files).len() == files.len(),
        ordered_names(files).to_multiset() == file_names(files).to_multiset(),
        0 <= i < j < files.len() ==> !text::precedes(ordered_names(files)[j], ordered_names(files)[i]),
        ordered_devices(devices).len() == devices.len(),
        ordered_devices(devices).to_multiset() == devices.to_multiset(),
        0 <= i < j < devices.len() ==> !text::precedes(
            ordered_devices(devices)[j].name@,
            ordered_devices(devices)[i].name@,
        ),
{
    let names = file_names(files);
    text::order_of_sorts(names);
    text::ordering_keeps_everything(names, names);
    let o = text::order_of(names);
    if 0 <= i < j < files.len() {
        text::precedes_is_total(names[o[i]], names[o[j]]);
    }
    let dn = device_names(devices);
    text::order_of_sorts(dn);
    text::ordering_keeps_everything(devices, dn);
    let p = text::order_of(dn);
    if 0 <= i < j < devices.len() {
        text::precedes_is_total(dn[p[i]], dn[p[j]]);
    }
}

/// A bare name stands in the directory without a name, a file of the root in the root, and
/// slashes alone or no path at all stand nowhere.
pub proof fn the_root_stands_nowhere(name: Seq<char>)
    requires
        name.len() > 0,
        !name.contains('/'),
        name.last() != '.',
    ensures
        parent_of(name) == Some(Seq::<char>::empty()),
        parent_of(seq!['/'] + name) == Some("/"@),
        parent_of(seq!['/']) is None,
        parent_of(Seq::empty()) is None,
{
    let root = seq!['/'];
    assert(name.contains(name[name.len() - 1]));
    assert(without_tail(name) == name);
    lemma_no_slash(name);
    let path = root + name;
    assert(path.last() == name.last());
    assert(without_tail(path) == path);
    lemma_up_to(root, name);
    assert(root.drop_last() =~= Seq::<char>::empty());
    assert(without_tail(Seq::<char>::empty()) =~= Seq::<char>::empty());
    assert(without_tail(root) == without_tail(root.drop_last()));
}

proof fn lemma_no_slash(name: Seq<char>)
    requires
        !name.contains('/'),
    ensures
        up_to_last_slash(name) == Seq::<char>::empty(),
    decreases name.len(),
{
    if name.len() > 0 {
        assert(name.contains(name[name.len() - 1]));
        let n = name.drop_last();
        assert(!n.contains('/')) by {
            if n.contains('/') {
                let k = choose|k: int| 0 <= k < n.len() && n[k] == '/';
                assert(name[k] == '/');
            }
        }
        lemma_no_slash(n);
    }
}

} // verus!
