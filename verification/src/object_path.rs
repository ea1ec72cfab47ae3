//! D-Bus object paths, and those of the objects that the daemon serves.

use vstd::prelude::*;

use crate::text::{
    decimal, decimal_value, encode_hex, hex_digit, hex_lower, lemma_decimal_digits,
    lemma_decimal_injective, lemma_decimal_reads_back, lemma_hex_digits, lemma_hex_injective,
    lemma_hex_reads_back, push_decimal,
};

verus! {

/// The error of the `zvariant` crate.
#[verifier::external_type_specification]
#[verifier::external_body]
pub struct ExZvariantError(zbus::zvariant::Error);

/// Whether `c` may stand in an element of an object path.
pub open spec fn is_element_char(c: char) -> bool {
    ('0' <= c && c <= '9') || ('a' <= c && c <= 'z') || ('A' <= c && c <= 'Z') || c == '_'
}

/// Whether `text` is an object path: elements of letters, digits and underscores, each after a
/// slash, or a slash alone.
pub open spec fn is_object_path(text: Seq<char>) -> bool {
    &&& text.len() > 0
    &&& text[0] == '/'
    &&& text.len() > 1 ==> text.last() != '/'
    &&& forall|i: int|
        0 <= i < text.len() ==> #[trigger] text[i] == '/' || is_element_char(text[i])
    &&& forall|i: int, j: int|
        0 <= i < text.len() && j == i + 1 && j < text.len() && #[trigger] text[i] == '/'
            ==> #[trigger] text[j] != '/'
}

/// Checks an object path with `zvariant::OwnedObjectPath::try_from`.
///
/// Assumed of `zvariant`: it accepts the texts that [`is_object_path`] describes and no others,
/// and keeps the text.
#[verifier::external_body]
fn check_object_path(text: String) -> (checked: Result<String, zbus::zvariant::Error>)
    ensures
        checked is Ok <==> is_object_path(text@),
        checked matches Ok(path) ==> path@ == text@,
{
    match zbus::zvariant::OwnedObjectPath::try_from(text) {
        Ok(path) => Ok(path.as_str().to_owned()),
        Err(error) => Err(error),
    }
}

/// The text is not an object path.
#[derive(Debug, Clone, Copy, PartialEq, Eq, Structural)]
pub struct InvalidObjectPath;

/// The path of an object on the bus.
#[derive(Debug)]
pub struct ObjectPath {
    text: String,
}

impl View for ObjectPath {
    type V = Seq<char>;

    closed spec fn view(&self) -> Seq<char> {
        self.text@
    }
}

impl ObjectPath {
    #[verifier::type_invariant]
    spec fn wf(self) -> bool {
        is_object_path(self.text@)
    }

    /// Makes an object path out of `text`.
    pub fn new(text: String) -> (path: Result<ObjectPath, InvalidObjectPath>)
        ensures
            path is Ok <==> is_object_path(text@),
            path matches Ok(p) ==> p@ == text@,
    {
        match check_object_path(text) {
            Ok(text) => Ok(ObjectPath { text }),
            Err(_) => Err(InvalidObjectPath),
        }
    }

    /// The text of the path.
    pub fn as_str(&self) -> (text: &str)
        ensures
            text@ == self@,
            is_object_path(text@),
    {
        proof {
            use_type_invariant(self);
        }
        self.text.as_str()
    }

    /// A copy of the path.
    pub fn duplicate(&self) -> (path: ObjectPath)
        ensures
            path@ == self@,
    {
        proof {
            use_type_invariant(self);
        }
        ObjectPath { text: self.text.clone() }
    }
}

/// The object path of the device with the given ids whose USB device has the given name.
pub open spec fn device_object_path(vid: u16, pid: u16, sysname: Seq<u8>) -> Seq<char> {
    "/dev/hasali/Fang/"@ + decimal(vid as nat) + seq!['_'] + decimal(pid as nat) + seq!['_']
        + hex_lower(sysname)
}

/// The object path of the lighting region `region_id` of the device at `device`.
pub open spec fn region_object_path(device: Seq<char>, region_id: u8) -> Seq<char> {
    device + "/light"@ + decimal(region_id as nat)
}

/// What a device's path adds to the path of the daemon.
spec fn device_suffix(vid: u16, pid: u16, sysname: Seq<u8>) -> Seq<char> {
    decimal(vid as nat) + seq!['_'] + decimal(pid as nat) + seq!['_'] + hex_lower(sysname)
}

/// Extending an object path by characters of an element gives an object path.
proof fn lemma_extend_element(path: Seq<char>, more: Seq<char>)
    requires
        is_object_path(path + seq!['0']),
        more.len() > 0,
        forall|i: int| 0 <= i < more.len() ==> is_element_char(#[trigger] more[i]),
    ensures
        is_object_path(path + more),
{
    let all = path + more;
    let known = path + seq!['0'];
    assert(known.last() == '0');
    assert(all[0] == '/') by {
        assert(known[0] == '/');
        assert(path.len() > 0);
    }
    assert forall|i: int| 0 <= i < all.len() implies #[trigger] all[i] == '/' || is_element_char(
        all[i],
    ) by {
        if i < path.len() {
            assert(all[i] == known[i]);
        } else {
            assert(all[i] == more[i - path.len()]);
        }
    }
    assert(all.last() == more.last());
    assert forall|i: int, j: int|
        0 <= i < all.len() && j == i + 1 && j < all.len() && #[trigger] all[i]
            == '/' implies #[trigger] all[j] != '/' by {
        if j < path.len() {
            assert(all[i] == known[i] && all[j] == known[j]);
        } else {
            assert(all[j] == more[j - path.len()]);
        }
    }
}

/// Every device path is an object path, whatever the USB device is called.
pub proof fn lemma_device_path_valid(vid: u16, pid: u16, sysname: Seq<u8>)
    ensures
        is_object_path(device_object_path(vid, pid, sysname)),
{
    reveal_strlit("/dev/hasali/Fang/");
    let base = "/dev/hasali/Fang/"@;
    let more = device_suffix(vid, pid, sysname);
    lemma_decimal_digits(vid as nat);
    lemma_decimal_digits(pid as nat);
    lemma_hex_digits(sysname);
    assert(is_object_path(base + seq!['0']));
    assert forall|i: int| 0 <= i < more.len() implies is_element_char(#[trigger] more[i]) by {
        let v = decimal(vid as nat).len() as int;
        let p = decimal(pid as nat).len() as int;
        if i < v {
            assert(more[i] == decimal(vid as nat)[i]);
        } else if i == v {
            assert(more[i] == '_');
        } else if i < v + 1 + p {
            assert(more[i] == decimal(pid as nat)[i - v - 1]);
        } else if i == v + 1 + p {
            assert(more[i] == '_');
        } else {
            assert(more[i] == hex_lower(sysname)[i - v - p - 2]);
        }
    }
    lemma_extend_element(base, more);
    assert(device_object_path(vid, pid, sysname) =~= base + more);
}

/// The path of a region of a device is an object path.
pub proof fn lemma_region_path_valid(device: Seq<char>, region_id: u8)
    requires
        is_object_path(device),
        device.len() > 1,
    ensures
        is_object_path(region_object_path(device, region_id)),
{
    reveal_strlit("/light");
    lemma_decimal_digits(region_id as nat);
    let known = device + "/light"@ + seq!['0'];
    assert forall|i: int| 0 <= i < known.len() implies #[trigger] known[i] == '/'
        || is_element_char(known[i]) by {
        if i < device.len() {
            assert(known[i] == device[i]);
        } else if i < device.len() + 6 {
            assert(known[i] == "/light"@[i - device.len()]);
        }
    }
    assert forall|i: int, j: int|
        0 <= i < known.len() && j == i + 1 && j < known.len() && #[trigger] known[i]
            == '/' implies #[trigger] known[j] != '/' by {
        if j < device.len() {
            assert(known[i] == device[i] && known[j] == device[j]);
        } else if j == device.len() {
            assert(known[i] == device.last());
        } else if j < device.len() + 6 {
            assert(known[j] == "/light"@[j - device.len()]);
        }
    }
    assert(known[0] == device[0]);
    assert(known.last() == '0');
    assert(is_object_path(known));
    lemma_extend_element(device + "/light"@, decimal(region_id as nat));
}

/// Two devices with the same object path have the same ids and the same name.
pub proof fn lemma_device_path_injective(
    vid1: u16,
    pid1: u16,
    sysname1: Seq<u8>,
    vid2: u16,
    pid2: u16,
    sysname2: Seq<u8>,
)
    requires
        device_object_path(vid1, pid1, sysname1) == device_object_path(vid2, pid2, sysname2),
    ensures
        vid1 == vid2,
        pid1 == pid2,
        sysname1 == sysname2,
{
    let base = "/dev/hasali/Fang/"@;
    let whole1 = device_object_path(vid1, pid1, sysname1);
    let whole2 = device_object_path(vid2, pid2, sysname2);
    let v1 = decimal(vid1 as nat);
    let v2 = decimal(vid2 as nat);
    let p1 = decimal(pid1 as nat);
    let p2 = decimal(pid2 as nat);
    let h1 = hex_lower(sysname1);
    let h2 = hex_lower(sysname2);
    lemma_decimal_digits(vid1 as nat);
    lemma_decimal_digits(vid2 as nat);
    lemma_decimal_digits(pid1 as nat);
    lemma_decimal_digits(pid2 as nat);
    let tail1 = p1 + seq!['_'] + h1;
    let tail2 = p2 + seq!['_'] + h2;
    let rest1 = v1 + seq!['_'] + tail1;
    let rest2 = v2 + seq!['_'] + tail2;
    assert(whole1 =~= base + rest1);
    assert(whole2 =~= base + rest2);
    assert(rest1 =~= whole1.skip(base.len() as int));
    assert(rest2 =~= whole2.skip(base.len() as int));
    lemma_split_unique(v1, tail1, v2, tail2);
    lemma_split_unique(p1, h1, p2, h2);
    lemma_decimal_injective(vid1 as nat, vid2 as nat);
    lemma_decimal_injective(pid1 as nat, pid2 as nat);
    lemma_hex_injective(sysname1, sysname2);
}

/// Two texts that agree, each cut at its first underscore, agree on both sides of the cut.
proof fn lemma_split_unique(a: Seq<char>, b: Seq<char>, c: Seq<char>, d: Seq<char>)
    requires
        a + seq!['_'] + b == c + seq!['_'] + d,
        forall|i: int| 0 <= i < a.len() ==> #[trigger] a[i] <= '9',
        forall|i: int| 0 <= i < c.len() ==> #[trigger] c[i] <= '9',
    ensures
        a == c,
        b == d,
{
    let whole = a + seq!['_'] + b;
    let other = c + seq!['_'] + d;
    assert(whole[a.len() as int] == '_');
    assert(other[c.len() as int] == '_');
    if a.len() < c.len() {
        assert(other[a.len() as int] == c[a.len() as int]);
    }
    if c.len() < a.len() {
        assert(whole[c.len() as int] == a[c.len() as int]);
    }
    assert(a =~= whole.take(a.len() as int));
    assert(c =~= other.take(c.len() as int));
    assert(b =~= whole.skip(a.len() as int + 1));
    assert(d =~= other.skip(c.len() as int + 1));
}

/// Two regions of one device with the same object path are the same region, and no region's path
/// is that of its device.
pub proof fn lemma_region_path_injective(device: Seq<char>, region1: u8, region2: u8)
    ensures
        region_object_path(device, region1) == region_object_path(device, region2) ==> region1
            == region2,
        region_object_path(device, region1) != device,
{
    let base = device + "/light"@;
    assert(region_object_path(device, region1).skip(base.len() as int) =~= decimal(region1 as nat));
    assert(region_object_path(device, region2).skip(base.len() as int) =~= decimal(region2 as nat));
    if region_object_path(device, region1) == region_object_path(device, region2) {
        lemma_decimal_injective(region1 as nat, region2 as nat);
    }
    lemma_decimal_digits(region1 as nat);
    assert(region_object_path(device, region1).len() > device.len());
}

/// The object path of a device.
pub fn create_object_path(vid: u16, pid: u16, sysname: &[u8]) -> (path: Result<
    ObjectPath,
    InvalidObjectPath,
>)
    ensures
        path is Ok,
        path->Ok_0@ == device_object_path(vid, pid, sysname@),
{
    let sysname_hex = encode_hex(sysname);
    let mut text = "/dev/hasali/Fang/".to_owned();
    push_decimal(&mut text, vid);
    text.append("_");
    push_decimal(&mut text, pid);
    text.append("_");
    text.append(sysname_hex.as_str());
    proof {
        reveal_strlit("_");
        assert("_"@ =~= seq!['_']);
        lemma_device_path_valid(vid, pid, sysname@);
        assert(text@ =~= device_object_path(vid, pid, sysname@));
    }
    ObjectPath::new(text)
}

/// The object path of a lighting region of the device at `device`.
pub fn create_region_path(device: &ObjectPath, region_id: u8) -> (path: Result<
    ObjectPath,
    InvalidObjectPath,
>)
    ensures
        path is Ok <==> device@.len() > 1,
        path matches Ok(p) ==> p@ == region_object_path(device@, region_id),
{
    let mut text = device.as_str().to_owned();
    text.append("/light");
    push_decimal(&mut text, region_id as u16);
    proof {
        if device@.len() > 1 {
            lemma_region_path_valid(device@, region_id);
        } else {
            reveal_strlit("/light");
            assert(text@[0] == '/' && text@[1] == '/');
        }
    }
    ObjectPath::new(text)
}

/// Whether `text` is made of decimals and is not written with a leading zero.
pub open spec fn is_plain_number(text: Seq<char>) -> bool {
    &&& text.len() > 0
    &&& text.len() > 1 ==> text[0] != '0'
    &&& forall|i: int| 0 <= i < text.len() ==> '0' <= #[trigger] text[i] && text[i] <= '9'
}

/// A device's path reads back as the device: after the path of the daemon come the vendor id and
/// the product id in base ten, and then every byte of the name of its USB device in base sixteen.
pub proof fn lemma_device_path_reads_back(vid: u16, pid: u16, sysname: Seq<u8>) -> (parts: (
    Seq<char>,
    Seq<char>,
    Seq<char>,
))
    ensures
        device_object_path(vid, pid, sysname) == "/dev/hasali/Fang/"@ + parts.0 + seq!['_']
            + parts.1 + seq!['_'] + parts.2,
        is_plain_number(parts.0),
        decimal_value(parts.0) == vid,
        is_plain_number(parts.1),
        decimal_value(parts.1) == pid,
        parts.2.len() == 2 * sysname.len(),
        forall|i: int|
            0 <= i < sysname.len() ==> {
                &&& hex_digit(parts.2[2 * i]) is Some
                &&& hex_digit(parts.2[2 * i + 1]) is Some
                &&& hex_digit(parts.2[2 * i])->0 * 16 + hex_digit(parts.2[2 * i + 1])->0
                    == #[trigger] sysname[i]
            },
        forall|i: int|
            0 <= i < parts.2.len() ==> !('A' <= #[trigger] parts.2[i] && parts.2[i] <= 'F'),
{
    let name = hex_lower(sysname);
    lemma_decimal_reads_back(vid as nat);
    lemma_decimal_reads_back(pid as nat);
    lemma_hex_digits(sysname);
    assert forall|i: int| 0 <= i < sysname.len() implies {
        &&& hex_digit(name[2 * i]) is Some
        &&& hex_digit(name[2 * i + 1]) is Some
        &&& hex_digit(name[2 * i])->0 * 16 + hex_digit(name[2 * i + 1])->0
            == #[trigger] sysname[i]
    } by {
        lemma_hex_reads_back(sysname, i);
    }
    (decimal(vid as nat), decimal(pid as nat), name)
}

/// A region's path reads back as the region: after the path of its device come the word for a light
/// and the id of the region in base ten.
pub proof fn lemma_region_path_reads_back(device: Seq<char>, region_id: u8) -> (number: Seq<char>)
    ensures
        region_object_path(device, region_id) == device + "/light"@ + number,
        is_plain_number(number),
        decimal_value(number) == region_id,
{
    lemma_decimal_reads_back(region_id as nat);
    decimal(region_id as nat)
}

/// A slash alone is an object path. Any longer one ends with a letter, a digit or an underscore,
/// and what is before that is an object path, or a longer one and the slash that follows it.
pub proof fn lemma_object_path_decided(text: Seq<char>, c: char)
    ensures
        !is_object_path(Seq::empty()),
        is_object_path(seq![c]) <==> c == '/',
        text.len() > 0 ==> (is_object_path(text.push(c)) <==> {
            &&& ('0' <= c && c <= '9') || ('a' <= c && c <= 'z') || ('A' <= c && c <= 'Z') || c
                == '_'
            &&& is_object_path(text) || (text.len() > 2 && text.last() == '/' && is_object_path(
                text.drop_last(),
            ))
        }),
{
    assert(seq![c][0] == c);
    if text.len() > 0 {
        let all = text.push(c);
        let last = text.len() as int;
        assert(all[last] == c && all.last() == c && all[0] == text[0]);
        assert forall|i: int| 0 <= i < last implies #[trigger] all[i] == text[i] by {}
        if is_object_path(all) {
            assert(all[last] == '/' || is_element_char(all[last]));
            let front = text.drop_last();
            assert forall|i: int| 0 <= i < text.len() implies #[trigger] text[i] == '/'
                || is_element_char(text[i]) by {
                assert(all[i] == text[i]);
            }
            assert forall|i: int, j: int|
                0 <= i < text.len() && j == i + 1 && j < text.len() && #[trigger] text[i]
                    == '/' implies #[trigger] text[j] != '/' by {
                assert(all[i] == text[i] && all[j] == text[j]);
            }
            if !is_object_path(text) {
                assert(text.len() > 1 && text.last() == '/');
                assert(text[last - 1] == '/');
                if text.len() == 2 {
                    assert(text[0] == '/' && text[1] == '/');
                }
                assert(text[last - 2] != '/');
                assert(front.last() == text[last - 2]);
                assert(front[0] == text[0]);
                assert forall|i: int| 0 <= i < front.len() implies #[trigger] front[i] == '/'
                    || is_element_char(front[i]) by {
                    assert(front[i] == text[i]);
                }
                assert forall|i: int, j: int|
                    0 <= i < front.len() && j == i + 1 && j < front.len() && #[trigger] front[i]
                        == '/' implies #[trigger] front[j] != '/' by {
                    assert(front[i] == text[i] && front[j] == text[j]);
                }
                assert(is_object_path(front));
            }
        }
        if is_element_char(c) && (is_object_path(text) || (text.len() > 2 && text.last() == '/'
            && is_object_path(text.drop_last()))) {
            let front = text.drop_last();
            let known = if is_object_path(text) {
                text
            } else {
                front
            };
            assert forall|i: int| 0 <= i < known.len() implies #[trigger] known[i] == all[i] by {}
            assert(known[0] == '/');
            assert(all[0] == known[0]);
            assert(text.len() >= 1 && text[last - 1] == text.last());
            if !is_object_path(text) {
                assert(front.last() == front[last - 2]);
                assert(all[last - 2] != '/');
            }
            assert forall|i: int| 0 <= i < all.len() implies #[trigger] all[i] == '/'
                || is_element_char(all[i]) by {
                if i < known.len() {
                    assert(known[i] == all[i]);
                }
            }
            assert forall|i: int, j: int|
                0 <= i < all.len() && j == i + 1 && j < all.len() && #[trigger] all[i]
                    == '/' implies #[trigger] all[j] != '/' by {
                if j < known.len() {
                    assert(known[i] == all[i] && known[j] == all[j]);
                }
            }
            assert(is_object_path(all));
        }
    }
}

} // verus!
