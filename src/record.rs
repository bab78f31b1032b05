use vstd::prelude::*;
use crate::error::InfoError;

verus! {

/// How a hardware profile was matched to a device node.
#[derive(Clone, Copy, Debug, PartialEq, Eq, Structural)]
pub enum MatchKind {
    /// The database knows this exact device.
    Exact,
    /// No exact profile exists; the database's generic tablet template was used.
    Generic,
}

/// The fields of one hardware profile, as the database reports them:
/// text as owned strings, every number and flag as the database's signed integer.
#[derive(Clone, Debug)]
pub struct ForeignRecord {
    pub name: String,
    pub model_name: Option<String>,
    pub layout_name: Option<String>,
    pub vendor_id: i32,
    pub product_id: i32,
    pub width: i32,
    pub height: i32,
    pub stylus: i32,
    pub touch: i32,
    pub ring: i32,
    pub ring2: i32,
    pub touch_switch: i32,
    pub reversible: i32,
    pub num_strips: i32,
}

/// A resolved hardware profile of one device node.
///
/// A profile that came from the generic template carries neither a model
/// name nor a layout.
#[derive(Debug)]
pub struct DeviceRecord {
    kind: MatchKind,
    fields: ForeignRecord,
}

/// `f` with its model name and layout taken away, as the generic template has them.
pub open spec fn without_optional_fields(f: ForeignRecord) -> ForeignRecord {
    ForeignRecord { model_name: None, layout_name: None, ..f }
}

/// A capability that the database reports as a tri-state integer is present
/// exactly when that integer is positive.
pub open spec fn present(v: i32) -> bool {
    v > 0
}

/// The checked conversion of an identifier reported as a signed integer.
pub open spec fn checked_id(v: i32) -> Result<u32, InfoError> {
    if v < 0 {
        Err(InfoError::ConversionError)
    } else {
        Ok(v as u32)
    }
}

/// Number of rings: one for each of the two ring flags that is present.
pub open spec fn ring_count(f: ForeignRecord) -> int {
    (if present(f.ring) { 1int } else { 0int }) + (if present(f.ring2) { 1int } else { 0int })
}

impl DeviceRecord {
    #[verifier::type_invariant]
    spec fn generic_has_no_optional_fields(self) -> bool {
        self.kind == MatchKind::Generic ==> self.fields.model_name is None
            && self.fields.layout_name is None
    }

    /// How this profile was matched.
    pub closed spec fn kind(self) -> MatchKind {
        self.kind
    }

    /// The fields of this profile.
    pub closed spec fn fields(self) -> ForeignRecord {
        self.fields
    }

    /// A profile of the exact kind, holding `fields` unchanged.
    pub fn exact(fields: ForeignRecord) -> (r: DeviceRecord)
        ensures
            r.kind() == MatchKind::Exact,
            r.fields() == fields,
    {
        DeviceRecord { kind: MatchKind::Exact, fields }
    }

    /// A profile of the generic kind: `fields` without model name and layout.
    pub fn generic(fields: ForeignRecord) -> (r: DeviceRecord)
        ensures
            r.kind() == MatchKind::Generic,
            r.fields() == without_optional_fields(fields),
    {
        let fields = ForeignRecord { model_name: None, layout_name: None, ..fields };
        DeviceRecord { kind: MatchKind::Generic, fields }
    }

    /// How this profile was matched.
    pub fn match_kind(&self) -> (r: MatchKind)
        ensures
            r == self.kind(),
    {
        self.kind
    }
}

/// Resolution policy: the exact profile when the database has one, else the
/// generic template when it offers one, else nothing (the node is no tablet
/// or could not be opened).
pub fn get_device(exact: Option<ForeignRecord>, fallback: Option<ForeignRecord>) -> (r: Option<DeviceRecord>)
    ensures
        match exact {
            Some(f) => r is Some && r->0.kind() == MatchKind::Exact && r->0.fields() == f,
            None => match fallback {
                Some(g) => r is Some && r->0.kind() == MatchKind::Generic
                    && r->0.fields() == without_optional_fields(g),
                None => r is None,
            },
        },
{
    match exact {
        Some(f) => Some(DeviceRecord::exact(f)),
        None => match fallback {
            Some(g) => Some(DeviceRecord::generic(g)),
            None => None,
        },
    }
}

/// The display name of the profile.
pub fn get_device_name(device: &DeviceRecord) -> (r: String)
    ensures
        r@ == device.fields().name@,
{
    device.fields.name.clone()
}

/// The model name, absent for the generic template and for profiles that have none.
pub fn get_device_model_name(device: &DeviceRecord) -> (r: Option<String>)
    ensures
        r == device.fields().model_name,
        device.kind() == MatchKind::Generic ==> r is None,
{
    proof { use_type_invariant(device); }
    device.fields.model_name.clone()
}

/// The layout identifier, absent for the generic template and for profiles without
/// an on-screen layout.
pub fn get_device_layout_name(device: &DeviceRecord) -> (r: Option<String>)
    ensures
        r == device.fields().layout_name,
        device.kind() == MatchKind::Generic ==> r is None,
{
    proof { use_type_invariant(device); }
    device.fields.layout_name.clone()
}

/// Checked conversion of a reported identifier: a negative value is a
/// conversion error, never wrapped.
pub fn convert_id(v: i32) -> (r: Result<u32, InfoError>)
    ensures
        r == checked_id(v),
        r is Ok ==> r->Ok_0 < 0x8000_0000 && r->Ok_0 as int == v as int,
        r is Err <==> v < 0,
{
    if v < 0 {
        Err(InfoError::ConversionError)
    } else {
        Ok(v as u32)
    }
}

/// The vendor identifier, or a conversion error when the database reports a negative one.
pub fn get_device_vendor_id(device: &DeviceRecord) -> (r: Result<u32, InfoError>)
    ensures
        r == checked_id(device.fields().vendor_id),
        r is Ok ==> r->Ok_0 < 0x8000_0000 && r->Ok_0 as int == device.fields().vendor_id as int,
{
    convert_id(device.fields.vendor_id)
}

/// The product identifier, or a conversion error when the database reports a negative one.
pub fn get_device_product_id(device: &DeviceRecord) -> (r: Result<u32, InfoError>)
    ensures
        r == checked_id(device.fields().product_id),
        r is Ok ==> r->Ok_0 < 0x8000_0000 && r->Ok_0 as int == device.fields().product_id as int,
{
    convert_id(device.fields.product_id)
}

/// Vendor and product identifier together; an error when either conversion fails.
pub fn get_device_hardware_id(device: &DeviceRecord) -> (r: Result<(u32, u32), InfoError>)
    ensures
        match (checked_id(device.fields().vendor_id), checked_id(device.fields().product_id)) {
            (Ok(v), Ok(p)) => r == Ok::<(u32, u32), InfoError>((v, p)),
            _ => r == Err::<(u32, u32), InfoError>(InfoError::ConversionError),
        },
{
    let vendor = get_device_vendor_id(device)?;
    let product = get_device_product_id(device)?;
    Ok((vendor, product))
}

/// The physical width, passed through as reported (-1 means unknown).
pub fn get_device_width(device: &DeviceRecord) -> (r: i32)
    ensures
        r == device.fields().width,
{
    device.fields.width
}

/// The physical height, passed through as reported (-1 means unknown).
pub fn get_device_height(device: &DeviceRecord) -> (r: i32)
    ensures
        r == device.fields().height,
{
    device.fields.height
}

/// Width and height together.
pub fn get_device_size(device: &DeviceRecord) -> (r: (i32, i32))
    ensures
        r == (device.fields().width, device.fields().height),
{
    (get_device_width(device), get_device_height(device))
}

/// Normalises a tri-state capability value: present exactly when positive.
pub fn capability(v: i32) -> (r: bool)
    ensures
        r == present(v),
        v <= 0 ==> !r,
{
    v > 0
}

/// Whether the device supports a stylus.
pub fn device_has_styli_support(device: &DeviceRecord) -> (r: bool)
    ensures
        r == present(device.fields().stylus),
{
    capability(device.fields.stylus)
}

/// Whether the device supports touch.
pub fn device_has_touch_support(device: &DeviceRecord) -> (r: bool)
    ensures
        r == present(device.fields().touch),
{
    capability(device.fields.touch)
}

/// The number of rings: 0, 1 or 2.
pub fn get_device_num_rings(device: &DeviceRecord) -> (r: i32)
    ensures
        r as int == ring_count(device.fields()),
        0 <= r <= 2,
{
    let mut num_rings: i32 = 0;
    if capability(device.fields.ring) {
        num_rings = num_rings + 1;
    }
    if capability(device.fields.ring2) {
        num_rings = num_rings + 1;
    }
    num_rings
}

/// Whether the device has a switch that turns touch on and off.
pub fn device_has_touch_switch(device: &DeviceRecord) -> (r: bool)
    ensures
        r == present(device.fields().touch_switch),
{
    capability(device.fields.touch_switch)
}

/// The number of touch strips, passed through as reported.
pub fn get_device_num_strips(device: &DeviceRecord) -> (r: i32)
    ensures
        r == device.fields().num_strips,
{
    device.fields.num_strips
}

/// Whether the device can be used rotated by half a turn.
pub fn device_is_reversible(device: &DeviceRecord) -> (r: bool)
    ensures
        r == present(device.fields().reversible),
{
    capability(device.fields.reversible)
}

} // verus!
