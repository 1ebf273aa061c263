use vstd::prelude::*;

use crate::index::{decimal, index_text, lemma_decimal_injective};

verus! {

/// One entry of a device listing.
pub struct CpalDeviceInfo<D> {
    /// Position in this listing, in decimal, counted from zero.
    pub index: String,
    /// The device's name, or `Unknown` where the host could not give one.
    pub name: String,
    /// Whether the name equals that of the host's default device for this direction.
    pub is_default: bool,
    /// The host's handle for the device, owned by the entry.
    pub device: D,
}

/// What the host reported about one of its input devices.
pub struct InputProbe<D> {
    /// The host's handle for the device.
    pub device: D,
    /// The device's name; `None` where the lookup failed.
    pub name: Option<String>,
    /// The device listed its supported input configurations, and there was at least one.
    pub has_supported_config: bool,
    /// The device gave a default input configuration.
    pub has_default_config: bool,
}

/// What the host reported about one of its output devices.
pub struct OutputProbe<D> {
    /// The host's handle for the device.
    pub device: D,
    /// The device's name; `None` where the lookup failed.
    pub name: Option<String>,
}

/// The name shown for a device whose name could not be read.
pub open spec fn unknown_name() -> Seq<char> {
    "Unknown"@
}

/// The name listed for a device, given the result of its name lookup.
pub open spec fn shown_name(name: Option<String>) -> Seq<char> {
    match name {
        Some(s) => s@,
        None => unknown_name(),
    }
}

/// Whether a listed name is the host's default device's name.
pub open spec fn names_default(default_name: Option<String>, name: Seq<char>) -> bool {
    match default_name {
        Some(d) => d@ == name,
        None => false,
    }
}

impl<D> InputProbe<D> {
    /// The device can be offered for capture: it has a supported input
    /// configuration and a default one.
    pub open spec fn usable(self) -> bool {
        self.has_supported_config && self.has_default_config
    }
}

/// Positions, in order, of the probes that pass the validity check.
pub open spec fn kept_positions<D>(probes: Seq<InputProbe<D>>) -> Seq<int>
    decreases probes.len(),
{
    if probes.len() == 0 {
        Seq::empty()
    } else {
        let kept = kept_positions(probes.drop_last());
        if probes.last().usable() {
            kept.push(probes.len() - 1)
        } else {
            kept
        }
    }
}

/// `entry` lists, at position `k`, a device with handle `device` whose name
/// lookup gave `name`.
pub open spec fn describes<D>(
    entry: CpalDeviceInfo<D>,
    k: int,
    device: D,
    name: Option<String>,
    default_name: Option<String>,
) -> bool {
    &&& entry.index@ == decimal(k as nat)
    &&& entry.name@ == shown_name(name)
    &&& entry.is_default == names_default(default_name, entry.name@)
    &&& entry.device == device
}

/// Properties shared by every listing: indices are distinct, and the
/// default flag follows the name.
pub open spec fn listing_consistent<D>(
    entries: Seq<CpalDeviceInfo<D>>,
    default_name: Option<String>,
) -> bool {
    &&& forall|i: int, j: int|
        0 <= i < entries.len() && 0 <= j < entries.len() && i != j
            ==> #[trigger] entries[i].index@ != #[trigger] entries[j].index@
    &&& forall|i: int, j: int|
        0 <= i < entries.len() && 0 <= j < entries.len() && #[trigger] entries[i].is_default
            && #[trigger] entries[j].is_default ==> entries[i].name@ == entries[j].name@
    &&& forall|i: int, j: int|
        0 <= i < entries.len() && 0 <= j < entries.len() && #[trigger] entries[i].name@
            == #[trigger] entries[j].name@ ==> entries[i].is_default == entries[j].is_default
    &&& default_name is None ==> forall|i: int|
        0 <= i < entries.len() ==> !(#[trigger] entries[i].is_default)
}

/// The validity check: whether a device can provide a usable input configuration.
pub fn has_valid_input_config<D>(probe: &InputProbe<D>) -> (r: bool)
    ensures
        r == probe.usable(),
{
    if probe.has_supported_config {
        probe.has_default_config
    } else {
        false
    }
}

/// The listed name for a name lookup's result.
fn name_or_unknown(name: Option<String>) -> (r: String)
    ensures
        r@ == shown_name(name),
{
    match name {
        Some(s) => s,
        None => String::from_str("Unknown"),
    }
}

/// Whether `name` is the default device's name.
fn is_default_name(default_name: &Option<String>, name: &String) -> (r: bool)
    ensures
        r == names_default(*default_name, name@),
{
    match default_name {
        Some(d) => d.eq(name),
        None => false,
    }
}

/// Builds the entry at position `k`.
fn describe<D>(k: usize, device: D, name: Option<String>, default_name: &Option<String>) -> (r:
    CpalDeviceInfo<D>)
    ensures
        describes(r, k as int, device, name, *default_name),
{
    let name = name_or_unknown(name);
    let is_default = is_default_name(default_name, &name);
    CpalDeviceInfo { index: index_text(k), name, is_default, device }
}

/// The elements of `v` in reverse order.
fn reversed<T>(v: Vec<T>) -> (r: Vec<T>)
    ensures
        r@.len() == v@.len(),
        forall|j: int| 0 <= j < v@.len() ==> r@[j] == v@[v@.len() - 1 - j],
{
    let ghost orig = v@;
    let mut rest = v;
    let mut out: Vec<T> = Vec::new();
    while rest.len() > 0
        invariant
            out@.len() + rest@.len() == orig.len(),
            rest@ == orig.subrange(0, rest@.len() as int),
            forall|j: int| 0 <= j < out@.len() ==> out@[j] == orig[orig.len() - 1 - j],
        decreases rest@.len(),
    {
        let x = rest.pop().unwrap();
        out.push(x);
    }
    out
}

proof fn lemma_listing_consistent<D>(
    entries: Seq<CpalDeviceInfo<D>>,
    default_name: Option<String>,
)
    requires
        forall|k: int|
            0 <= k < entries.len() ==> (#[trigger] entries[k]).index@ == decimal(k as nat)
                && entries[k].is_default == names_default(default_name, entries[k].name@),
    ensures
        listing_consistent(entries, default_name),
{
    assert forall|i: int, j: int|
        0 <= i < entries.len() && 0 <= j < entries.len() && i != j implies #[trigger] entries[i].index@
        != #[trigger] entries[j].index@ by {
        if entries[i].index@ == entries[j].index@ {
            lemma_decimal_injective(i as nat, j as nat);
        }
    }
}

/// Lists the input devices that can provide a usable input configuration,
/// in the host's order, numbered from zero over the devices listed.
///
/// `devices` is the host's list of input devices, or the error it gave
/// instead; that error is passed on unchanged.
pub fn list_input_devices<D, E>(
    default_name: Option<String>,
    devices: Result<Vec<InputProbe<D>>, E>,
) -> (r: Result<Vec<CpalDeviceInfo<D>>, E>)
    ensures
        devices is Err <==> r is Err,
        devices is Err ==> r == Err::<Vec<CpalDeviceInfo<D>>, E>(devices->Err_0),
        devices is Ok ==> {
            let probes = devices->Ok_0@;
            let kept = kept_positions(probes);
            let entries = r->Ok_0@;
            &&& entries.len() == kept.len()
            &&& entries.len() <= probes.len()
            &&& forall|k: int|
                0 <= k < entries.len() ==> describes(
                    #[trigger] entries[k],
                    k,
                    probes[kept[k]].device,
                    probes[kept[k]].name,
                    default_name,
                )
            &&& listing_consistent(entries, default_name)
        },
{
    let devices = match devices {
        Ok(v) => v,
        Err(e) => return Err(e),
    };
    let ghost probes = devices@;
    let n = devices.len();
    let mut rest = reversed(devices);
    let mut out: Vec<CpalDeviceInfo<D>> = Vec::new();
    let mut i: usize = 0;
    while i < n
        invariant
            n == probes.len(),
            i <= n,
            rest@.len() == n - i,
            forall|j: int| 0 <= j < rest@.len() ==> rest@[j] == probes[n - 1 - j],
            out@.len() == kept_positions(probes.subrange(0, i as int)).len(),
            forall|k: int|
                0 <= k < out@.len() ==> describes(
                    #[trigger] out@[k],
                    k,
                    probes[kept_positions(probes.subrange(0, i as int))[k]].device,
                    probes[kept_positions(probes.subrange(0, i as int))[k]].name,
                    default_name,
                ),
            forall|k: int|
                0 <= k < kept_positions(probes.subrange(0, i as int)).len() ==> 0
                    <= #[trigger] kept_positions(probes.subrange(0, i as int))[k] < i,
        decreases n - i,
    {
        let probe = rest.pop().unwrap();
        assert(probe == probes[i as int]);
        let ghost before = probes.subrange(0, i as int);
        let ghost after = probes.subrange(0, i + 1);
        assert(after.drop_last() =~= before);
        if has_valid_input_config(&probe) {
            let k = out.len();
            let entry = describe(k, probe.device, probe.name, &default_name);
            out.push(entry);
        }
        i = i + 1;
    }
    assert(probes.subrange(0, n as int) =~= probes);
    proof {
        lemma_kept_positions(probes);
        lemma_listing_consistent(out@, default_name);
    }
    Ok(out)
}

/// The positions kept by the validity check are increasing, lie within the
/// probes, and are exactly those of the probes that pass it.
pub proof fn lemma_kept_positions<D>(probes: Seq<InputProbe<D>>)
    ensures
        kept_positions(probes).len() <= probes.len(),
        forall|k: int|
            0 <= k < kept_positions(probes).len() ==> 0 <= #[trigger] kept_positions(probes)[k]
                < probes.len(),
        forall|a: int, b: int|
            0 <= a < b < kept_positions(probes).len() ==> #[trigger] kept_positions(probes)[a]
                < #[trigger] kept_positions(probes)[b],
        forall|i: int|
            0 <= i < probes.len() ==> (#[trigger] probes[i].usable() <==> kept_positions(
                probes,
            ).contains(i)),
    decreases probes.len(),
{
    if probes.len() > 0 {
        let prev = probes.drop_last();
        lemma_kept_positions(prev);
        let kp = kept_positions(prev);
        let kept = kept_positions(probes);
        assert forall|i: int| 0 <= i < probes.len() implies (#[trigger] probes[i].usable()
            <==> kept.contains(i)) by {
            if i < probes.len() - 1 {
                assert(prev[i] == probes[i]);
                if kp.contains(i) {
                    let w = choose|w: int| 0 <= w < kp.len() && kp[w] == i;
                    assert(kept[w] == i);
                }
                if kept.contains(i) {
                    let w = choose|w: int| 0 <= w < kept.len() && kept[w] == i;
                    if w < kp.len() {
                        assert(kp[w] == i);
                    }
                }
            } else {
                if probes[i].usable() {
                    assert(kept[kp.len() as int] == i);
                }
                if kept.contains(i) {
                    let w = choose|w: int| 0 <= w < kept.len() && kept[w] == i;
                    if w < kp.len() {
                        assert(kp[w] == i);
                    }
                }
            }
        }
    }
}

/// Lists every output device of the host, in the host's order, numbered from zero.
///
/// `devices` is the host's list of output devices, or the error it gave
/// instead; that error is passed on unchanged.
pub fn list_output_devices<D, E>(
    default_name: Option<String>,
    devices: Result<Vec<OutputProbe<D>>, E>,
) -> (r: Result<Vec<CpalDeviceInfo<D>>, E>)
    ensures
        devices is Err <==> r is Err,
        devices is Err ==> r == Err::<Vec<CpalDeviceInfo<D>>, E>(devices->Err_0),
        devices is Ok ==> {
            let probes = devices->Ok_0@;
            let entries = r->Ok_0@;
            &&& entries.len() == probes.len()
            &&& forall|k: int|
                0 <= k < entries.len() ==> describes(
                    #[trigger] entries[k],
                    k,
                    probes[k].device,
                    probes[k].name,
                    default_name,
                )
            &&& listing_consistent(entries, default_name)
        },
{
    let devices = match devices {
        Ok(v) => v,
        Err(e) => return Err(e),
    };
    let ghost probes = devices@;
    let n = devices.len();
    let mut rest = reversed(devices);
    let mut out: Vec<CpalDeviceInfo<D>> = Vec::new();
    let mut i: usize = 0;
    while i < n
        invariant
            n == probes.len(),
            i <= n,
            rest@.len() == n - i,
            forall|j: int| 0 <= j < rest@.len() ==> rest@[j] == probes[n - 1 - j],
            out@.len() == i,
            forall|k: int|
                0 <= k < i ==> describes(
                    #[trigger] out@[k],
                    k,
                    probes[k].device,
                    probes[k].name,
                    default_name,
                ),
        decreases n - i,
    {
        let probe = rest.pop().unwrap();
        assert(probe == probes[i as int]);
        let entry = describe(i, probe.device, probe.name, &default_name);
        out.push(entry);
        i = i + 1;
    }
    proof {
        lemma_listing_consistent(out@, default_name);
    }
    Ok(out)
}

/// Whether a device is kept does not depend on its name: two probe lists that
/// agree on the configuration reports keep the same positions.
pub proof fn lemma_selection_ignores_names<D>(a: Seq<InputProbe<D>>, b: Seq<InputProbe<D>>)
    requires
        a.len() == b.len(),
        forall|i: int|
            0 <= i < a.len() ==> (#[trigger] a[i]).has_supported_config
                == b[i].has_supported_config && a[i].has_default_config
                == b[i].has_default_config,
    ensures
        kept_positions(a) == kept_positions(b),
    decreases a.len(),
{
    if a.len() > 0 {
        let (pa, pb) = (a.drop_last(), b.drop_last());
        assert forall|i: int| 0 <= i < pa.len() implies (#[trigger] pa[i]).has_supported_config
            == pb[i].has_supported_config && pa[i].has_default_config
            == pb[i].has_default_config by {
            assert(pa[i] == a[i] && pb[i] == b[i]);
        }
        lemma_selection_ignores_names(pa, pb);
        assert(a.last() == a[a.len() - 1]);
        assert(b.last() == b[b.len() - 1]);
    }
}

} // verus!
