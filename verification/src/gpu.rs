//! GPUs as `nvidia-smi` reports them, and whether this image can run on them.

use vstd::prelude::*;

use crate::grpc::request::option_text;
use crate::text::{
    after_prefix, chars_eq, chars_of, decimal, decimal_string, drop_while, dropped, find,
    find_from, first_word, join, joined, lemma_split_joined, lemma_trimmed_push, lines, lines_of,
    parse_unsigned, part_at, pieces_view, skip_while, skipped, slice_of, split, split_by, split_once,
    strip_prefix, text_eq, text_of, texts, trim, trimmed, unsigned_upto, until, until_at,
    without_return, word, Class,
};

verus! {

/// The variable that holds which variant of the backend an image carries.
pub const TEI_VARIANT_ENV: &'static str = "TEI_VARIANT";

/// The variable that holds what an image's CUDA asks of the host.
pub const NVIDIA_REQUIRE_CUDA_ENV: &'static str = "NVIDIA_REQUIRE_CUDA";

/// Where memory is shared with the system, one in so many parts of what is
/// available counts as free for a GPU.
pub const UNIFIED_MEMORY_DIVISOR: u64 = 4;

/// One GPU.
#[derive(Debug, Clone, PartialEq, Eq)]
pub struct GpuDevice {
    /// The number that CUDA knows it by.
    pub index: u32,
    pub name: String,
    /// Compute capability, major and minor.
    pub compute_cap: Option<(u32, u32)>,
    pub memory_total_mib: Option<u64>,
    pub memory_free_mib: Option<u64>,
}

/// One GPU as a mathematical value.
pub struct GpuDeviceView {
    pub index: u32,
    pub name: Seq<char>,
    pub compute_cap: Option<(u32, u32)>,
    pub memory_total_mib: Option<u64>,
    pub memory_free_mib: Option<u64>,
}

impl View for GpuDevice {
    type V = GpuDeviceView;

    open spec fn view(&self) -> GpuDeviceView {
        GpuDeviceView {
            index: self.index,
            name: self.name@,
            compute_cap: self.compute_cap,
            memory_total_mib: self.memory_total_mib,
            memory_free_mib: self.memory_free_mib,
        }
    }
}

/// The GPUs that are visible here.
#[derive(Debug, Clone)]
pub struct GpuInfo {
    /// The numbers that CUDA knows them by.
    pub indices: Vec<u32>,
    /// The same, with commas between.
    pub cuda_visible_devices: String,
    /// Details, in the same order.
    pub devices: Vec<GpuDevice>,
}

/// The host's driver.
#[derive(Debug, Clone, PartialEq, Eq)]
pub struct HostDriver {
    pub driver_version: Option<String>,
    /// The highest CUDA version that the driver supports.
    pub cuda_version: Option<(u32, u32)>,
}

impl Default for GpuInfo {
    fn default() -> (g: Self)
        ensures
            g.indices@.len() == 0,
            g.cuda_visible_devices@.len() == 0,
            g.devices@.len() == 0,
    {
        GpuInfo {
            indices: Vec::new(),
            cuda_visible_devices: String::new(),
            devices: Vec::new(),
        }
    }
}

impl Default for HostDriver {
    fn default() -> (h: Self)
        ensures
            h.driver_version is None,
            h.cuda_version is None,
    {
        HostDriver { driver_version: None, cuda_version: None }
    }
}

/// All devices as mathematical values.
pub open spec fn devices_view(devices: Seq<GpuDevice>) -> Seq<GpuDeviceView> {
    Seq::new(devices.len(), |i: int| devices[i]@)
}

/// The smaller of two amounts that may be unknown.
pub open spec fn least(a: Option<u64>, b: Option<u64>) -> Option<u64> {
    match (a, b) {
        (Some(x), Some(y)) => if x <= y {
            Some(x)
        } else {
            Some(y)
        },
        (Some(x), None) => Some(x),
        (None, b) => b,
    }
}

/// The least free memory among the devices that report it.
pub open spec fn least_free(devices: Seq<GpuDevice>) -> Option<u64>
    decreases devices.len(),
{
    if devices.len() == 0 {
        None
    } else {
        least(least_free(devices.drop_last()), devices.last().memory_free_mib)
    }
}

/// The free memory of the GPU with this number, or the least of all.
pub open spec fn free_vram(info: GpuInfo, gpu_id: Option<u32>) -> Option<u64> {
    match gpu_id {
        Some(id) => if id < info.devices@.len() {
            info.devices@[id as int].memory_free_mib
        } else {
            None
        },
        None => least_free(info.devices@),
    }
}

/// Whether any device reports its free memory.
pub open spec fn any_reports(devices: Seq<GpuDevice>) -> bool {
    exists|i: int| 0 <= i < devices.len() && (#[trigger] devices[i]).memory_free_mib is Some
}

impl GpuInfo {
    /// How many GPUs there are.
    pub fn count(&self) -> (n: usize)
        ensures
            n == self.indices@.len(),
    {
        self.indices.len()
    }

    /// Whether there is a GPU of this number, counted from 0.
    pub fn is_valid_gpu_id(&self, gpu_id: u32) -> (r: bool)
        ensures
            r == (gpu_id < self.indices@.len()),
    {
        (gpu_id as usize) < self.indices.len()
    }

    /// What `CUDA_VISIBLE_DEVICES` has to be for a GPU, counted from 0.
    pub fn get_cuda_device(&self, gpu_id: u32) -> (r: Option<String>)
        ensures
            option_text(r) == (if gpu_id < self.indices@.len() {
                Some(decimal(self.indices@[gpu_id as int] as nat))
            } else {
                None
            }),
    {
        if (gpu_id as usize) < self.indices.len() {
            Some(decimal_string(self.indices[gpu_id as usize] as u64))
        } else {
            None
        }
    }

    /// The details of a GPU, counted from 0.
    pub fn device(&self, gpu_id: u32) -> (r: Option<&GpuDevice>)
        ensures
            match r {
                Some(d) => gpu_id < self.devices@.len() && *d == self.devices@[gpu_id as int],
                None => gpu_id >= self.devices@.len(),
            },
    {
        if (gpu_id as usize) < self.devices.len() {
            Some(&self.devices[gpu_id as usize])
        } else {
            None
        }
    }

    /// Free memory in MiB of the GPU that an instance will run on; the least of
    /// all when it may land on any.
    pub fn free_vram_mib(&self, gpu_id: Option<u32>) -> (r: Option<u64>)
        ensures
            r == free_vram(*self, gpu_id),
            gpu_id matches Some(id) ==> id < self.devices@.len() ==> r
                == self.devices@[id as int].memory_free_mib,
    {
        match gpu_id {
            Some(id) => match self.device(id) {
                Some(d) => d.memory_free_mib,
                None => None,
            },
            None => {
                let mut found: Option<u64> = None;
                let mut i: usize = 0;
                assert(self.devices@.take(0) =~= Seq::<GpuDevice>::empty());
                while i < self.devices.len()
                    invariant
                        i <= self.devices@.len(),
                        found == least_free(self.devices@.take(i as int)),
                    decreases self.devices@.len() - i,
                {
                    assert(self.devices@.take(i + 1).drop_last() =~= self.devices@.take(i as int));
                    found = match (found, self.devices[i].memory_free_mib) {
                        (Some(x), Some(y)) => if x <= y {
                            Some(x)
                        } else {
                            Some(y)
                        },
                        (Some(x), None) => Some(x),
                        (None, other) => other,
                    };
                    i = i + 1;
                }
                assert(self.devices@.take(i as int) =~= self.devices@);
                found
            },
        }
    }

    fn reports_memory(&self) -> (r: bool)
        ensures
            r == any_reports(self.devices@),
    {
        let mut i: usize = 0;
        while i < self.devices.len()
            invariant
                i <= self.devices@.len(),
                forall|k: int|
                    0 <= k < i ==> (#[trigger] self.devices@[k]).memory_free_mib is None,
            decreases self.devices@.len() - i,
        {
            if self.devices[i].memory_free_mib.is_some() {
                return true;
            }
            i = i + 1;
        }
        false
    }

    /// Free memory in MiB, where `meminfo` is the content of `/proc/meminfo`. On
    /// machines whose GPUs share the system's memory and report none of their
    /// own, a part of what the system has available stands in.
    pub fn free_vram_mib_with_meminfo(&self, gpu_id: Option<u32>, meminfo: Option<&str>) -> (r:
        Option<u64>)
        ensures
            r == (match free_vram(*self, gpu_id) {
                Some(vram) => Some(vram),
                None => if self.devices@.len() == 0 || any_reports(self.devices@) {
                    None
                } else {
                    match meminfo {
                        None => None,
                        Some(text) => match available_kib(lines(text@)) {
                            Some(kib) => Some((kib / 1024 / UNIFIED_MEMORY_DIVISOR) as u64),
                            None => None,
                        },
                    }
                },
            }),
            forall|i: int|
                0 <= i < self.devices@.len() && (#[trigger] self.devices@[i]).memory_free_mib is Some
                    ==> r == free_vram(*self, gpu_id),
            self.devices@.len() == 0 ==> r is None,
            meminfo is None ==> r == free_vram(*self, gpu_id),
    {
        if let Some(vram) = self.free_vram_mib(gpu_id) {
            return Some(vram);
        }
        if self.devices.len() == 0 || self.reports_memory() {
            return None;
        }
        match meminfo {
            None => None,
            Some(text) => match meminfo_available_kib(text) {
                Some(kib) => Some(kib / 1024 / UNIFIED_MEMORY_DIVISOR),
                None => None,
            },
        }
    }
}

/// A number that fits 32 bits.
pub open spec fn number_u32(s: Seq<char>) -> Option<u32> {
    match unsigned_upto(s, u32::MAX as nat) {
        Some(n) => Some(n as u32),
        None => None,
    }
}

/// A number that fits 64 bits.
pub open spec fn number_u64(s: Seq<char>) -> Option<u64> {
    match unsigned_upto(s, u64::MAX as nat) {
        Some(n) => Some(n as u64),
        None => None,
    }
}

fn parse_u32(v: &Vec<char>) -> (r: Option<u32>)
    ensures
        r == number_u32(v@),
{
    match parse_unsigned(v, 0xffff_ffff) {
        Some(n) => Some(n as u32),
        None => None,
    }
}

fn parse_u64(v: &Vec<char>) -> (r: Option<u64>)
    ensures
        r == number_u64(v@),
{
    parse_unsigned(v, u64::MAX)
}

/// What a line of `/proc/meminfo` says is available, if it is about that.
pub open spec fn line_available(line: Seq<char>) -> Option<u64> {
    match strip_prefix(line, "MemAvailable:"@) {
        Some(rest) => match first_word(rest) {
            Some(w) => number_u64(w),
            None => None,
        },
        None => None,
    }
}

/// What the first line that says so says is available.
pub open spec fn available_kib(ls: Seq<Seq<char>>) -> Option<u64>
    decreases ls.len(),
{
    if ls.len() == 0 {
        None
    } else {
        match line_available(ls[0]) {
            Some(n) => Some(n),
            None => available_kib(ls.drop_first()),
        }
    }
}

/// The memory available, in KiB, by the content of `/proc/meminfo`.
pub fn meminfo_available_kib(meminfo: &str) -> (r: Option<u64>)
    ensures
        r == available_kib(lines(meminfo@)),
{
    let ls = lines_of(meminfo);
    let mut i: usize = 0;
    assert(pieces_view(ls@).skip(0) =~= pieces_view(ls@));
    while i < ls.len()
        invariant
            i <= ls@.len(),
            pieces_view(ls@) == lines(meminfo@),
            available_kib(pieces_view(ls@)) == available_kib(pieces_view(ls@).skip(i as int)),
        decreases ls@.len() - i,
    {
        assert(pieces_view(ls@).skip(i as int)[0] == ls@[i as int]@);
        assert(pieces_view(ls@).skip(i as int).drop_first() =~= pieces_view(ls@).skip(i + 1));
        if let Some(rest) = after_prefix(&ls[i], "MemAvailable:") {
            if let Some(w) = word(&rest) {
                if let Some(n) = parse_u64(&w) {
                    return Some(n);
                }
            }
        }
        i = i + 1;
    }
    None
}

/// A version `major.minor`.
pub open spec fn version(s: Seq<char>) -> Option<(u32, u32)> {
    match split_once(s, '.') {
        Some((major, minor)) => match (number_u32(major), number_u32(minor)) {
            (Some(a), Some(b)) => Some((a, b)),
            _ => None,
        },
        None => None,
    }
}

/// Read a version `major.minor`.
fn parse_dotted(v: &Vec<char>) -> (r: Option<(u32, u32)>)
    ensures
        r == version(v@),
{
    match part_at(v, '.') {
        Some((major, minor)) => match (parse_u32(&major), parse_u32(&minor)) {
            (Some(a), Some(b)) => Some((a, b)),
            _ => None,
        },
        None => None,
    }
}

/// The columns of a line, without white space at their ends.
pub open spec fn columns(line: Seq<char>) -> Seq<Seq<char>> {
    split(line, Class::One(',')).map_values(|c: Seq<char>| trimmed(c))
}

/// The device that a line describes: its number, name, compute capability, and
/// total and free memory. A line that does not begin with a number describes
/// none; what else is missing or no number is unknown.
pub open spec fn line_device(line: Seq<char>) -> Option<GpuDeviceView> {
    let c = columns(line);
    match number_u32(c[0]) {
        None => None,
        Some(index) => Some(
            GpuDeviceView {
                index,
                name: if c.len() > 1 {
                    c[1]
                } else {
                    Seq::empty()
                },
                compute_cap: if c.len() > 2 {
                    version(c[2])
                } else {
                    None
                },
                memory_total_mib: if c.len() > 3 {
                    number_u64(c[3])
                } else {
                    None
                },
                memory_free_mib: if c.len() > 4 {
                    number_u64(c[4])
                } else {
                    None
                },
            },
        ),
    }
}

/// The devices that lines describe, in order.
pub open spec fn line_devices(ls: Seq<Seq<char>>) -> Seq<GpuDeviceView>
    decreases ls.len(),
{
    if ls.len() == 0 {
        Seq::empty()
    } else {
        let before = line_devices(ls.drop_last());
        match line_device(ls.last()) {
            Some(d) => before.push(d),
            None => before,
        }
    }
}

fn parse_line(line: &Vec<char>) -> (r: Option<GpuDevice>)
    ensures
        match r {
            Some(d) => line_device(line@) == Some(d@),
            None => line_device(line@) is None,
        },
{
    let pieces = split_by(line, Class::One(','));
    proof {
        crate::text::lemma_split_len(line@, Class::One(','));
        assert(pieces@.len() == pieces_view(pieces@).len());
        assert forall|k: int| 0 <= k < pieces@.len() implies columns(line@)[k] == trimmed(
            #[trigger] pieces@[k]@,
        ) by {
            assert(pieces_view(pieces@)[k] == pieces@[k]@);
        }
    }
    let index: u32 = match parse_u32(&trim(&pieces[0])) {
        Some(n) => n,
        None => {
            return None;
        },
    };
    let n: usize = pieces.len();
    let name = if n > 1 {
        let t = trim(&pieces[1]);
        let s = text_of(&t, 0, t.len());
        assert(s@ =~= t@);
        s
    } else {
        String::new()
    };
    let compute_cap = if n > 2 {
        parse_dotted(&trim(&pieces[2]))
    } else {
        None
    };
    let memory_total_mib = if n > 3 {
        parse_u64(&trim(&pieces[3]))
    } else {
        None
    };
    let memory_free_mib = if n > 4 {
        parse_u64(&trim(&pieces[4]))
    } else {
        None
    };
    Some(GpuDevice { index, name, compute_cap, memory_total_mib, memory_free_mib })
}

/// The numbers of the devices, in decimal.
pub open spec fn index_texts(devices: Seq<GpuDeviceView>) -> Seq<Seq<char>> {
    devices.map_values(|d: GpuDeviceView| decimal(d.index as nat))
}

/// Read the output of `nvidia-smi
/// --query-gpu=index,name,compute_cap,memory.total,memory.free
/// --format=csv,noheader,nounits`.
pub fn parse_nvidia_smi(stdout: &str) -> (info: GpuInfo)
    ensures
        devices_view(info.devices@) == line_devices(lines(stdout@)),
        info.indices@ == line_devices(lines(stdout@)).map_values(|d: GpuDeviceView| d.index),
        info.cuda_visible_devices@ == joined(index_texts(line_devices(lines(stdout@))), ","@),
{
    let ls = lines_of(stdout);
    let mut devices: Vec<GpuDevice> = Vec::new();
    let mut indices: Vec<u32> = Vec::new();
    let mut numbers: Vec<String> = Vec::new();
    let mut i: usize = 0;
    proof {
        assert(devices_view(devices@) =~= line_devices(pieces_view(ls@).take(0)));
        assert(indices@ =~= devices_view(devices@).map_values(|d: GpuDeviceView| d.index));
        assert(texts(numbers@) =~= index_texts(devices_view(devices@)));
    }
    while i < ls.len()
        invariant
            i <= ls@.len(),
            devices_view(devices@) == line_devices(pieces_view(ls@).take(i as int)),
            indices@ == devices_view(devices@).map_values(|d: GpuDeviceView| d.index),
            texts(numbers@) == index_texts(devices_view(devices@)),
        decreases ls@.len() - i,
    {
        let ghost upto = pieces_view(ls@).take(i + 1);
        assert(upto.drop_last() =~= pieces_view(ls@).take(i as int));
        assert(upto.last() == ls@[i as int]@);
        let ghost before = devices_view(devices@);
        let ghost before_texts = texts(numbers@);
        if let Some(d) = parse_line(&ls[i]) {
            indices.push(d.index);
            numbers.push(decimal_string(d.index as u64));
            devices.push(d);
            proof {
                assert(devices_view(devices@) =~= before.push(d@));
                assert(indices@ =~= devices_view(devices@).map_values(|d: GpuDeviceView| d.index));
                assert(texts(numbers@) =~= before_texts.push(decimal(d.index as nat)));
                assert(texts(numbers@) =~= index_texts(devices_view(devices@)));
            }
        }
        i = i + 1;
    }
    assert(pieces_view(ls@).take(i as int) =~= pieces_view(ls@));
    let cuda_visible_devices = join(&numbers, ",");
    GpuInfo { indices, cuda_visible_devices, devices }
}

/// A variant without its dash.
pub open spec fn variant_name(variant: Seq<char>) -> Seq<char> {
    drop_while(trimmed(variant), Class::One('-'))
}

/// The compute capability that a variant is compiled for.
pub open spec fn variant_cap(variant: Seq<char>) -> Option<u32> {
    let v = variant_name(variant);
    if v == ""@ {
        Some(80u32)
    } else if v == "89"@ {
        Some(89u32)
    } else if v == "hopper"@ {
        Some(90u32)
    } else if v == "120"@ {
        Some(120u32)
    } else if v == "121"@ {
        Some(121u32)
    } else if v == "cpu"@ {
        None
    } else {
        number_u32(v)
    }
}

/// The compute capability that the backend of an image is compiled for, by the
/// image's variant; none for a CPU image or a variant that is not known.
pub fn compiled_compute_cap(variant: &str) -> (r: Option<u32>)
    ensures
        r == variant_cap(variant@),
{
    let v = dropped(&trim(&chars_of(variant)), Class::One('-'));
    if chars_eq(&v, &chars_of("")) {
        Some(80)
    } else if chars_eq(&v, &chars_of("89")) {
        Some(89)
    } else if chars_eq(&v, &chars_of("hopper")) {
        Some(90)
    } else if chars_eq(&v, &chars_of("120")) {
        Some(120)
    } else if chars_eq(&v, &chars_of("121")) {
        Some(121)
    } else if chars_eq(&v, &chars_of("cpu")) {
        None
    } else {
        parse_u32(&v)
    }
}

/// What `suggested_variant` says.
pub open spec fn suggestion(runtime: (u32, u32)) -> Seq<char> {
    if runtime.0 == 8 {
        "default (Ampere sm_80) or -ada for sm_89"@
    } else if runtime.0 == 9 {
        "-hopper"@
    } else if runtime == (12u32, 0u32) {
        "-blackwell"@
    } else if runtime == (12u32, 1u32) {
        "121- (DGX Spark, arm64)"@
    } else {
        "an image built for this compute capability"@
    }
}

/// The image to suggest for a compute capability.
pub fn suggested_variant(runtime: (u32, u32)) -> (s: &'static str)
    ensures
        s@ == suggestion(runtime),
        runtime.0 == 8 ==> s@ == "default (Ampere sm_80) or -ada for sm_89"@,
        runtime.0 == 9 ==> s@ == "-hopper"@,
        runtime.0 == 12 && runtime.1 == 0 ==> s@ == "-blackwell"@,
        runtime.0 == 12 && runtime.1 == 1 ==> s@ == "121- (DGX Spark, arm64)"@,
        runtime.0 != 8 && runtime.0 != 9 && !(runtime.0 == 12 && runtime.1 <= 1) ==> s@
            == "an image built for this compute capability"@,
{
    if runtime.0 == 8 {
        "default (Ampere sm_80) or -ada for sm_89"
    } else if runtime.0 == 9 {
        "-hopper"
    } else if runtime.0 == 12 && runtime.1 == 0 {
        "-blackwell"
    } else if runtime.0 == 12 && runtime.1 == 1 {
        "121- (DGX Spark, arm64)"
    } else {
        "an image built for this compute capability"
    }
}

/// Whether code compiled for `compiled`, such as 80, runs on a capability: the
/// same major version, and no older.
pub open spec fn cap_compatible(compiled: u32, runtime: (u32, u32)) -> bool {
    runtime.0 == compiled / 10 && runtime.0 * 10 + runtime.1 >= compiled
}

/// Whether code compiled for `compiled`, such as 80, runs on a capability.
pub fn compute_cap_compatible(compiled: u32, runtime: (u32, u32)) -> (r: bool)
    ensures
        r == cap_compatible(compiled, runtime),
        r <==> runtime.0 == compiled / 10 && runtime.1 >= compiled % 10,
{
    runtime.0 == compiled / 10 && runtime.0 as u64 * 10 + runtime.1 as u64 >= compiled as u64
}

/// What is said of a device that cannot run what an image carries.
pub open spec fn cap_message(d: GpuDevice, cap: (u32, u32), compiled: u32) -> Seq<char> {
    "GPU "@ + decimal(d.index as nat) + " ("@ + d.name@ + ") is compute capability "@ + decimal(
        cap.0 as nat,
    ) + "."@ + decimal(cap.1 as nat) + " but this image's TEI is compiled for sm_"@ + decimal(
        compiled as nat,
    ) + "; use the "@ + suggestion(cap) + " image"@
}

/// One message for each device that cannot run what an image carries, in order.
pub open spec fn cap_messages(devices: Seq<GpuDevice>, compiled: u32) -> Seq<Seq<char>>
    decreases devices.len(),
{
    if devices.len() == 0 {
        Seq::empty()
    } else {
        let before = cap_messages(devices.drop_last(), compiled);
        match devices.last().compute_cap {
            Some(cap) => if cap_compatible(compiled, cap) {
                before
            } else {
                before.push(cap_message(devices.last(), cap, compiled))
            },
            None => before,
        }
    }
}

/// What is said of a host whose driver is too old for an image.
pub open spec fn driver_message(host: HostDriver, has: (u32, u32), needs: (u32, u32)) -> Seq<char> {
    let driver = match host.driver_version {
        Some(v) => v@,
        None => "(unknown version)"@,
    };
    "host driver "@ + driver + " supports CUDA "@ + decimal(has.0 as nat) + "."@ + decimal(
        has.1 as nat,
    ) + " but this image's CUDA userspace requires "@ + decimal(needs.0 as nat) + "."@ + decimal(
        needs.1 as nat,
    )
        + "; GeForce GPUs have no forward compatibility — TEI will silently fall back to CPU. Use a host with driver CUDA >= "@
        + decimal(needs.0 as nat) + "."@ + decimal(needs.1 as nat)
}

/// Whether version `a` comes before `b`.
pub open spec fn older(a: (u32, u32), b: (u32, u32)) -> bool {
    a.0 < b.0 || (a.0 == b.0 && a.1 < b.1)
}

/// What is wrong with the host's driver, if both versions are known and it is
/// too old.
pub open spec fn driver_fault(host: HostDriver, required: Option<(u32, u32)>) -> Option<Seq<char>> {
    match (host.cuda_version, required) {
        (Some(has), Some(needs)) => if older(has, needs) {
            Some(driver_message(host, has, needs))
        } else {
            None
        },
        _ => None,
    }
}

/// Whether an image's CUDA can run on the host's driver: a message if not.
/// Consumer cards have no forward compatibility, and the backend would quietly
/// fall back to the CPU.
pub fn cuda_runtime_preflight(host: &HostDriver, required: Option<(u32, u32)>) -> (r: Option<
    String,
>)
    ensures
        option_text(r) == driver_fault(*host, required),
        match (host.cuda_version, required) {
            (Some(has), Some(needs)) => {
                &&& has.0 < needs.0 ==> r is Some
                &&& has.0 > needs.0 ==> r is None
                &&& has.0 == needs.0 ==> (r is Some <==> has.1 < needs.1)
            },
            _ => r is None,
        },
{
    let has: (u32, u32) = match host.cuda_version {
        Some(v) => v,
        None => {
            return None;
        },
    };
    let needs: (u32, u32) = match required {
        Some(v) => v,
        None => {
            return None;
        },
    };
    if !(has.0 < needs.0 || (has.0 == needs.0 && has.1 < needs.1)) {
        return None;
    }
    let driver = match &host.driver_version {
        Some(v) => v.as_str(),
        None => "(unknown version)",
    };
    Some(
        "host driver ".to_owned().concat(driver).concat(" supports CUDA ").concat(
            decimal_string(has.0 as u64).as_str(),
        ).concat(".").concat(decimal_string(has.1 as u64).as_str()).concat(
            " but this image's CUDA userspace requires ",
        ).concat(decimal_string(needs.0 as u64).as_str()).concat(".").concat(
            decimal_string(needs.1 as u64).as_str(),
        ).concat(
            "; GeForce GPUs have no forward compatibility — TEI will silently fall back to CPU. Use a host with driver CUDA >= ",
        ).concat(decimal_string(needs.0 as u64).as_str()).concat(".").concat(
            decimal_string(needs.1 as u64).as_str(),
        ),
    )
}

/// One message for each thing that keeps an image from running here.
pub open spec fn preflight_messages(
    info: GpuInfo,
    variant: Option<Seq<char>>,
    host: HostDriver,
    required: Option<(u32, u32)>,
) -> Seq<Seq<char>> {
    let caps = match variant {
        Some(v) => match variant_cap(v) {
            Some(compiled) => cap_messages(info.devices@, compiled),
            None => Seq::empty(),
        },
        None => Seq::empty(),
    };
    match driver_fault(host, required) {
        Some(m) => caps.push(m),
        None => caps,
    }
}

/// Check every GPU against what the image is compiled for, and the host's driver
/// against what its CUDA needs: one message for each problem.
pub fn preflight(
    info: &GpuInfo,
    variant: Option<&str>,
    host: &HostDriver,
    required_cuda: Option<(u32, u32)>,
) -> (msgs: Vec<String>)
    ensures
        texts(msgs@) == preflight_messages(
            *info,
            match variant {
                Some(v) => Some(v@),
                None => None,
            },
            *host,
            required_cuda,
        ),
{
    let mut msgs: Vec<String> = Vec::new();
    let compiled = match variant {
        Some(v) => compiled_compute_cap(v),
        None => None,
    };
    assert(texts(msgs@) =~= Seq::<Seq<char>>::empty());
    if let Some(compiled) = compiled {
        let mut i: usize = 0;
        while i < info.devices.len()
            invariant
                i <= info.devices@.len(),
                texts(msgs@) == cap_messages(info.devices@.take(i as int), compiled),
            decreases info.devices@.len() - i,
        {
            assert(info.devices@.take(i + 1).drop_last() =~= info.devices@.take(i as int));
            let d = &info.devices[i];
            let ghost before = texts(msgs@);
            if let Some(cap) = d.compute_cap {
                if !compute_cap_compatible(compiled, cap) {
                    msgs.push(
                        "GPU ".to_owned().concat(decimal_string(d.index as u64).as_str()).concat(
                            " (",
                        ).concat(d.name.as_str()).concat(") is compute capability ").concat(
                            decimal_string(cap.0 as u64).as_str(),
                        ).concat(".").concat(decimal_string(cap.1 as u64).as_str()).concat(
                            " but this image's TEI is compiled for sm_",
                        ).concat(decimal_string(compiled as u64).as_str()).concat(
                            "; use the ",
                        ).concat(suggested_variant(cap)).concat(" image"),
                    );
                    assert(texts(msgs@) =~= before.push(cap_message(*d, cap, compiled)));
                }
            }
            i = i + 1;
        }
        assert(info.devices@.take(i as int) =~= info.devices@);
    }
    let ghost caps = texts(msgs@);
    if let Some(m) = cuda_runtime_preflight(host, required_cuda) {
        msgs.push(m);
        assert(texts(msgs@) =~= caps.push(m@));
    }
    msgs
}

/// What a term of a requirement says of the CUDA version, if it is about that.
pub open spec fn term_cuda(term: Seq<char>) -> Option<(u32, u32)> {
    match strip_prefix(term, "cuda>="@) {
        Some(v) => version(trimmed(v)),
        None => None,
    }
}

/// What the first term that says so says.
pub open spec fn first_cuda(terms: Seq<Seq<char>>) -> Option<(u32, u32)>
    decreases terms.len(),
{
    if terms.len() == 0 {
        None
    } else {
        match term_cuda(terms[0]) {
            Some(v) => Some(v),
            None => first_cuda(terms.drop_first()),
        }
    }
}

/// The CUDA version that a value such as `cuda>=12.9 brand=tesla,driver>=535`
/// asks for.
pub fn parse_required_cuda(require: &str) -> (r: Option<(u32, u32)>)
    ensures
        r == first_cuda(split(require@, Class::Two(' ', ','))),
{
    let terms = split_by(&chars_of(require), Class::Two(' ', ','));
    let mut i: usize = 0;
    assert(pieces_view(terms@).skip(0) =~= pieces_view(terms@));
    while i < terms.len()
        invariant
            i <= terms@.len(),
            pieces_view(terms@) == split(require@, Class::Two(' ', ',')),
            first_cuda(pieces_view(terms@)) == first_cuda(pieces_view(terms@).skip(i as int)),
        decreases terms@.len() - i,
    {
        assert(pieces_view(terms@).skip(i as int)[0] == terms@[i as int]@);
        assert(pieces_view(terms@).skip(i as int).drop_first() =~= pieces_view(terms@).skip(i + 1));
        if let Some(v) = after_prefix(&terms[i], "cuda>=") {
            if let Some(found) = parse_dotted(&trim(&v)) {
                return Some(found);
            }
        }
        i = i + 1;
    }
    None
}

/// What follows a label: spaces and colons are skipped, and the value ends at
/// white space or a bar.
pub open spec fn labeled(output: Seq<char>, label: Seq<char>) -> Option<Seq<char>> {
    match find_from(output, label, 0) {
        None => None,
        Some(i) => {
            let rest = skip_while(output.skip(i + label.len()), Class::Two(' ', ':'));
            let n = until(rest, Class::WhiteOr('|')) as int;
            if n == 0 {
                None
            } else {
                Some(rest.take(n))
            }
        },
    }
}

fn labeled_value(output: &Vec<char>, label: &str) -> (r: Option<Vec<char>>)
    ensures
        match r {
            Some(v) => labeled(output@, label@) == Some(v@),
            None => labeled(output@, label@) is None,
        },
{
    let at: usize = match find(output, label) {
        Some(i) => i,
        None => {
            return None;
        },
    };
    let skip: usize = chars_of(label).len();
    let total: usize = output.len();
    let tail = slice_of(output, at + skip, total);
    assert(tail@ =~= output@.skip(at + label@.len()));
    let rest = skipped(&tail, Class::Two(' ', ':'));
    let n: usize = until_at(&rest, Class::WhiteOr('|'));
    if n == 0 {
        None
    } else {
        let v = slice_of(&rest, 0, n);
        assert(v@ =~= rest@.take(n as int));
        Some(v)
    }
}

/// A value, unless it says that there is none.
pub open spec fn available(value: Option<Seq<char>>) -> Option<Seq<char>> {
    if value == Some("[N/A]"@) {
        None
    } else {
        value
    }
}

/// Read the driver's version and the CUDA version it supports out of the output
/// of `nvidia-smi`, plain or with `-q`. What is missing or `[N/A]` is left out.
pub fn parse_host_driver(output: &str) -> (h: HostDriver)
    ensures
        option_text(h.driver_version) == available(labeled(output@, "Driver Version"@)),
        h.cuda_version == (match labeled(output@, "CUDA Version"@) {
            Some(v) => version(trimmed(v)),
            None => None,
        }),
{
    let v = chars_of(output);
    let driver_version = match labeled_value(&v, "Driver Version") {
        Some(d) => {
            let s = text_of(&d, 0, d.len());
            assert(s@ =~= d@);
            if text_eq(s.as_str(), "[N/A]") {
                None
            } else {
                Some(s)
            }
        },
        None => None,
    };
    let cuda_version = match labeled_value(&v, "CUDA Version") {
        Some(c) => parse_dotted(&trim(&c)),
        None => None,
    };
    HostDriver { driver_version, cuda_version }
}

/// The list of numbers that CUDA gets, the numbers themselves and the details
/// are of the same devices, in the same order.
pub proof fn law_lists_of_devices_agree(info: GpuInfo, ls: Seq<Seq<char>>)
    requires
        devices_view(info.devices@) == line_devices(ls),
        info.indices@ == line_devices(ls).map_values(|d: GpuDeviceView| d.index),
        info.cuda_visible_devices@ == joined(index_texts(line_devices(ls)), ","@),
    ensures
        info.indices@.len() == info.devices@.len(),
        forall|i: int|
            0 <= i < info.devices@.len() ==> info.indices@[i] == (
            #[trigger] info.devices@[i]).index,
{
    assert(devices_view(info.devices@).len() == info.devices@.len());
    assert forall|i: int| 0 <= i < info.devices@.len() implies info.indices@[i] == (
    #[trigger] info.devices@[i]).index by {
        assert(devices_view(info.devices@)[i] == info.devices@[i]@);
    }
}

proof fn lemma_line_devices_joined(x: Seq<Seq<char>>, y: Seq<Seq<char>>)
    ensures
        line_devices(x + y) == line_devices(x) + line_devices(y),
    decreases y.len(),
{
    if y.len() == 0 {
        assert(x + y =~= x);
        assert(line_devices(x + y) =~= line_devices(x) + line_devices(y));
    } else {
        assert((x + y).drop_last() =~= x + y.drop_last());
        lemma_line_devices_joined(x, y.drop_last());
        assert(line_devices(x + y) =~= line_devices(x) + line_devices(y));
    }
}

/// A carriage return at the end of a line does not change the device.
proof fn lemma_without_return(line: Seq<char>)
    ensures
        line_device(without_return(line)) == line_device(line),
{
    if line.len() > 0 && line.last() == '\r' {
        let class = Class::One(',');
        let init = line.drop_last();
        let before = split(init, class);
        crate::text::lemma_split_len(init, class);
        lemma_trimmed_push(before.last(), '\r');
        assert(split(line, class) == before.drop_last().push(before.last().push('\r')));
        assert(columns(line) =~= columns(init));
    }
}

/// Each line is read on its own: the devices of two texts with a line feed between
/// them are those of the one and then those of the other. So are their numbers.
pub proof fn law_lines_are_read_on_their_own(a: Seq<char>, b: Seq<char>)
    ensures
        ({
            let both = line_devices(lines(a + "\n"@ + b));
            &&& both == line_devices(lines(a)) + line_devices(lines(b))
            &&& both.map_values(|d: GpuDeviceView| d.index) == line_devices(lines(a)).map_values(
                |d: GpuDeviceView| d.index,
            ) + line_devices(lines(b)).map_values(|d: GpuDeviceView| d.index)
        }),
{
    let class = Class::One('\n');
    reveal_strlit("\n");
    assert(a + "\n"@ + b =~= a.push('\n') + b);
    lemma_split_joined(a, '\n', b, class);
    crate::text::lemma_split_len(a, class);
    crate::text::lemma_split_len(b, class);
    let last = split(a, class).last();
    let ended = Seq::new((split(a, class).len() - 1) as nat, |i: int| without_return(split(a, class)[i]));
    let first = ended.push(without_return(last));
    assert(lines(a + "\n"@ + b) =~= first + lines(b));
    lemma_line_devices_joined(first, lines(b));
    lemma_without_return(last);
    assert(first.drop_last() =~= ended);
    if last.len() == 0 {
        assert(lines(a) =~= ended);
        lemma_no_device();
        assert(last =~= Seq::empty());
    } else {
        assert(lines(a) =~= ended.push(last));
        assert(lines(a).drop_last() =~= ended);
    }
    assert(line_devices(first) =~= line_devices(lines(a)));
    let both = line_devices(lines(a + "\n"@ + b));
    assert(both.map_values(|d: GpuDeviceView| d.index) =~= line_devices(lines(a)).map_values(
        |d: GpuDeviceView| d.index,
    ) + line_devices(lines(b)).map_values(|d: GpuDeviceView| d.index));
}

/// An empty line describes no device.
proof fn lemma_no_device()
    ensures
        line_device(Seq::empty()) is None,
{
    let empty: Seq<char> = Seq::empty();
    assert(columns(empty)[0] == trimmed(empty));
    assert(trimmed(empty) =~= empty);
}

/// The least free memory is that of some device, and no device has less.
pub proof fn law_least_free_is_a_lower_bound(devices: Seq<GpuDevice>)
    ensures
        match least_free(devices) {
            None => !any_reports(devices),
            Some(m) => {
                &&& exists|i: int|
                    0 <= i < devices.len() && (#[trigger] devices[i]).memory_free_mib == Some(m)
                &&& forall|i: int|
                    0 <= i < devices.len() ==> ((#[trigger] devices[i]).memory_free_mib matches Some(
                        f,
                    ) ==> m <= f)
            },
        },
    decreases devices.len(),
{
    if devices.len() > 0 {
        let init = devices.drop_last();
        law_least_free_is_a_lower_bound(init);
        let n = devices.len() - 1;
        assert forall|i: int| 0 <= i < n implies devices[i] == init[i] by {}
        assert(devices[n] == devices.last());
        if let Some(m) = least_free(devices) {
            if devices.last().memory_free_mib != Some(m) {
                let i = choose|i: int|
                    0 <= i < init.len() && (#[trigger] init[i]).memory_free_mib == Some(m);
                assert(devices[i].memory_free_mib == Some(m));
            }
        }
    }
}

/// Code runs on the capability it was compiled for, and on later minor versions
/// of the same major version.
pub proof fn law_compatible_within_a_major_version(compiled: u32, minor: u32)
    ensures
        cap_compatible(compiled, (compiled / 10, compiled % 10)),
        minor >= compiled % 10 <==> cap_compatible(compiled, (compiled / 10, minor)),
        forall|major: u32, m: u32|
            major != compiled / 10 ==> !#[trigger] cap_compatible(compiled, (major, m)),
{
}

/// Versions are ordered by their major part and then by their minor part: whatever
/// the minors are, the lower major comes first. The order is total, and what comes
/// before and what comes after do not meet.
pub proof fn law_versions_are_ordered_by_major_then_minor(
    a: (u32, u32),
    b: (u32, u32),
    c: (u32, u32),
)
    ensures
        a.0 < b.0 ==> older(a, b) && !older(b, a),
        a.0 == b.0 ==> (older(a, b) <==> a.1 < b.1),
        !older(a, a),
        a != b ==> older(a, b) != older(b, a),
        older(a, b) && older(b, c) ==> older(a, c),
{
}

/// A host is told of exactly when the version that its driver supports and the one
/// that is required are known, and the former comes before the latter; a host that
/// is told of is told of for every later requirement too, and a newer driver with
/// the same requirement is not told of more.
pub proof fn law_old_drivers_are_told_of(
    host: HostDriver,
    newer: HostDriver,
    required: (u32, u32),
    later: (u32, u32),
)
    ensures
        driver_fault(host, None) is None,
        host.cuda_version is None ==> driver_fault(host, Some(required)) is None,
        host.cuda_version matches Some(has) ==> {
            &&& has.0 < required.0 ==> driver_fault(host, Some(required)) is Some
            &&& has.0 > required.0 ==> driver_fault(host, Some(required)) is None
            &&& has.0 == required.0 ==> (driver_fault(host, Some(required)) is Some <==> has.1
                < required.1)
        },
        driver_fault(host, Some(required)) is Some && (required.0 < later.0 || (required.0
            == later.0 && required.1 <= later.1)) ==> driver_fault(host, Some(later)) is Some,
        driver_fault(host, Some(required)) is None && (host.cuda_version matches Some(h)
            && newer.cuda_version matches Some(n) && (h.0 < n.0 || (h.0 == n.0 && h.1 <= n.1)))
            ==> driver_fault(newer, Some(required)) is None,
{
}

/// Digits hold nothing but digits.
proof fn lemma_digits_hold_none_of(n: nat, class: Class)
    requires
        forall|c: char| #[trigger] class.has(c) ==> !crate::text::is_digit(c),
    ensures
        crate::text::none_of(decimal(n), class),
        decimal(n).len() > 0,
{
    crate::text::law_decimals_stand_for_their_numbers(n);
    assert forall|i: int| 0 <= i < decimal(n).len() implies !class.has(#[trigger] decimal(n)[i]) by {
        assert(crate::text::is_digit(decimal(n)[i]));
    }
}

/// A text is parted where its first part ends, if that has no such character.
proof fn lemma_parted(a: Seq<char>, c: char, b: Seq<char>)
    requires
        !a.contains(c),
    ensures
        split_once(a.push(c) + b, c) == Some((a, b)),
{
    let s = a.push(c) + b;
    crate::text::law_texts_are_parted_once(s, c);
    assert(s[a.len() as int] == c);
    assert(s.contains(c));
    let (x, y) = split_once(s, c)->0;
    if x.len() < a.len() {
        assert(s[x.len() as int] == c);
        assert(a[x.len() as int] == c);
        assert(a.contains(c));
    }
    if a.len() < x.len() {
        assert(x[a.len() as int] == s[a.len() as int]);
        assert(x.contains(c));
    }
    assert(s == x.push(c) + y);
    assert forall|i: int| 0 <= i < a.len() implies x[i] == a[i] by {
        assert(s[i] == x[i]);
    }
    assert(x =~= a);
    assert forall|i: int| 0 <= i < y.len() implies y[i] == b[i] by {
        assert(s[x.len() + 1 + i] == y[i]);
    }
    assert(y =~= b);
}

/// A version that is written as two numbers with a point between them is read back.
pub proof fn law_versions_are_read_back(major: u32, minor: u32)
    ensures
        version(decimal(major as nat) + "."@ + decimal(minor as nat)) == Some((major, minor)),
{
    let a = decimal(major as nat);
    let b = decimal(minor as nat);
    reveal_strlit(".");
    lemma_digits_hold_none_of(major as nat, Class::One('.'));
    assert forall|i: int| 0 <= i < a.len() implies a[i] != '.' by {
        assert(!Class::One('.').has(a[i]));
    }
    assert(a + "."@ + b =~= a.push('.') + b);
    lemma_parted(a, '.', b);
    crate::text::law_decimals_are_read_back(major as nat, u32::MAX as nat);
    crate::text::law_decimals_are_read_back(minor as nat, u32::MAX as nat);
}

/// White space before a text goes, and the text stays.
proof fn lemma_trimmed(white: Seq<char>, x: Seq<char>)
    requires
        crate::text::all_of(white, Class::White),
        x.len() > 0,
        !crate::text::is_white(x[0]),
        !crate::text::is_white(x.last()),
    ensures
        trimmed(white + x) == x,
{
    let s = white + x;
    let t = trimmed(s);
    crate::text::law_trimming_takes_white_space_alone(s);
    let a = choose|a: int|
        0 <= a <= a + t.len() <= s.len() && t == #[trigger] s.subrange(a, a + t.len())
            && crate::text::all_of(s.take(a), Class::White) && crate::text::all_of(
            s.skip(a + t.len()),
            Class::White,
        );
    let w = white.len() as int;
    assert(s[w] == x[0]);
    assert(s.last() == x.last());
    if a > w {
        assert(Class::White.has(s.take(a)[w]));
    }
    if t.len() == 0 {
        assert(Class::White.has(s.skip(a)[w - a]));
    }
    if a < w {
        assert(t[0] == s[a]);
        assert(Class::White.has(white[a]));
    }
    if a + t.len() < s.len() {
        assert(Class::White.has(s.skip(a + t.len())[s.len() - 1 - a - t.len()]));
    }
    assert(t =~= x);
}

/// The pieces of a text before a comma, and of the rest.
proof fn lemma_comma(a: Seq<char>, b: Seq<char>)
    requires
        !a.contains(','),
    ensures
        split(a.push(',') + b, Class::One(',')) == seq![a] + split(b, Class::One(',')),
{
    let class = Class::One(',');
    lemma_split_joined(a, ',', b, class);
    assert(crate::text::none_of(a, class)) by {
        assert forall|i: int| 0 <= i < a.len() implies !class.has(#[trigger] a[i]) by {
            assert(a.contains(a[i]));
        }
    }
    crate::text::law_pieces_hold_none_of_the_class(a, class);
}

/// Whether a text has something to show and no white space at its ends.
pub open spec fn is_bare(s: Seq<char>) -> bool {
    s.len() > 0 && !crate::text::is_white(s[0]) && !crate::text::is_white(s.last())
}

/// A number in decimal is bare and has neither commas nor points.
proof fn lemma_bare_number(n: nat)
    ensures
        is_bare(decimal(n)),
        !decimal(n).contains(','),
        !decimal(n).contains('.'),
{
    lemma_digits_hold_none_of(n, Class::White);
    lemma_digits_hold_none_of(n, Class::One(','));
    lemma_digits_hold_none_of(n, Class::One('.'));
    let d = decimal(n);
    assert(!Class::White.has(d[0]) && !Class::White.has(d[d.len() - 1]));
    assert forall|i: int| 0 <= i < d.len() implies d[i] != ',' && d[i] != '.' by {
        assert(!Class::One(',').has(d[i]) && !Class::One('.').has(d[i]));
    }
}

/// A device that is described as `nvidia-smi` describes it is read back: its number,
/// its name, its compute capability, and its total and free memory, in this order.
pub proof fn law_devices_are_read_back(
    index: u32,
    name: Seq<char>,
    cap: (u32, u32),
    total: u64,
    free: u64,
)
    requires
        is_bare(name),
        !name.contains(','),
    ensures
        line_device(
            decimal(index as nat) + ", "@ + name + ", "@ + (decimal(cap.0 as nat) + "."@ + decimal(
                cap.1 as nat,
            )) + ", "@ + decimal(total as nat) + ", "@ + decimal(free as nat),
        ) == Some(
            GpuDeviceView {
                index,
                name,
                compute_cap: Some(cap),
                memory_total_mib: Some(total),
                memory_free_mib: Some(free),
            },
        ),
{
    reveal_strlit(".");
    let c0 = decimal(index as nat);
    let v = decimal(cap.0 as nat) + "."@ + decimal(cap.1 as nat);
    let t = decimal(total as nat);
    let m = decimal(free as nat);
    lemma_bare_number(index as nat);
    lemma_bare_number(cap.0 as nat);
    lemma_bare_number(cap.1 as nat);
    lemma_bare_number(total as nat);
    lemma_bare_number(free as nat);
    assert(is_bare(v));
    assert(!v.contains(',')) by {
        if v.contains(',') {
            let k = choose|k: int| 0 <= k < v.len() && v[k] == ',';
            let n = decimal(cap.0 as nat).len() as int;
            if k < n {
                assert(decimal(cap.0 as nat)[k] == ',');
            } else if k > n {
                assert(decimal(cap.1 as nat)[k - n - 1] == ',');
            }
        }
    }
    lemma_five_columns(c0, name, v, t, m);
    law_versions_are_read_back(cap.0, cap.1);
    crate::text::law_decimals_are_read_back(index as nat, u32::MAX as nat);
    crate::text::law_decimals_are_read_back(total as nat, u64::MAX as nat);
    crate::text::law_decimals_are_read_back(free as nat, u64::MAX as nat);
}

/// Five texts with a comma and a space between each two are five columns.
#[verifier::rlimit(40)]
proof fn lemma_five_columns(
    c0: Seq<char>,
    name: Seq<char>,
    v: Seq<char>,
    t: Seq<char>,
    m: Seq<char>,
)
    requires
        is_bare(c0) && is_bare(name) && is_bare(v) && is_bare(t) && is_bare(m),
        !c0.contains(',') && !name.contains(',') && !v.contains(','),
        !t.contains(',') && !m.contains(','),
    ensures
        columns(c0 + ", "@ + name + ", "@ + v + ", "@ + t + ", "@ + m) == seq![c0, name, v, t, m],
{
    reveal_strlit(", ");
    let sp = seq![' '];
    let line = c0 + ", "@ + name + ", "@ + v + ", "@ + t + ", "@ + m;
    let r3 = (sp + t).push(',') + (sp + m);
    let r2 = (sp + v).push(',') + r3;
    let r1 = (sp + name).push(',') + r2;
    assert(line =~= c0.push(',') + r1);
    let pieces = split(line, Class::One(','));
    assert(pieces == seq![c0, sp + name, sp + v, sp + t, sp + m]) by {
        lemma_no_comma(sp, name);
        lemma_no_comma(sp, v);
        lemma_no_comma(sp, t);
        lemma_no_comma(sp, m);
        lemma_comma(c0, r1);
        lemma_comma(sp + name, r2);
        lemma_comma(sp + v, r3);
        lemma_comma(sp + t, sp + m);
        lemma_alone(sp + m);
        assert(pieces =~= seq![c0, sp + name, sp + v, sp + t, sp + m]);
    }
    assert(crate::text::all_of(sp, Class::White));
    let none: Seq<char> = Seq::empty();
    lemma_trimmed(none, c0);
    assert(none + c0 =~= c0);
    lemma_trimmed(sp, name);
    lemma_trimmed(sp, v);
    lemma_trimmed(sp, t);
    lemma_trimmed(sp, m);
    assert(columns(line) =~= seq![c0, name, v, t, m]);
}

proof fn lemma_no_comma(sp: Seq<char>, x: Seq<char>)
    requires
        sp == seq![' '],
        !x.contains(','),
    ensures
        !(sp + x).contains(','),
{
    if (sp + x).contains(',') {
        let k = choose|k: int| 0 <= k < (sp + x).len() && (sp + x)[k] == ',';
        assert(k > 0);
        assert(x[k - 1] == ',');
    }
}

/// A text without commas is one piece.
proof fn lemma_alone(a: Seq<char>)
    requires
        !a.contains(','),
    ensures
        split(a, Class::One(',')) == seq![a],
{
    let class = Class::One(',');
    assert(crate::text::none_of(a, class)) by {
        assert forall|i: int| 0 <= i < a.len() implies !class.has(#[trigger] a[i]) by {
            assert(a.contains(a[i]));
        }
    }
    crate::text::law_pieces_hold_none_of_the_class(a, class);
}

/// A line describes a device only if it begins with the device's number: what stands
/// before the first comma is that number. Every device comes from one line, and
/// devices are in the order of their lines.
pub proof fn law_devices_come_from_their_lines(ls: Seq<Seq<char>>, i: int)
    requires
        0 <= i < ls.len(),
    ensures
        line_device(ls[i]) matches Some(d) ==> line_devices(ls).contains(d) && number_u32(
            trimmed(split(ls[i], Class::One(','))[0]),
        ) == Some(d.index),
        line_devices(ls).len() <= ls.len(),
        line_devices(ls) == line_devices(ls.take(i)) + line_devices(ls.skip(i)),
{
    assert(ls.take(i) + ls.skip(i) =~= ls);
    lemma_line_devices_joined(ls.take(i), ls.skip(i));
    let one = seq![ls[i]];
    assert(one + ls.skip(i + 1) =~= ls.skip(i));
    lemma_line_devices_joined(one, ls.skip(i + 1));
    assert(one.drop_last() =~= Seq::empty());
    crate::text::lemma_split_len(ls[i], Class::One(','));
    if let Some(d) = line_device(ls[i]) {
        reveal_with_fuel(line_devices, 2);
        assert(one.last() == ls[i]);
        assert(line_devices(one) =~= seq![d]);
        let at = line_devices(ls.take(i)).len() as int;
        assert(line_devices(ls)[at] == d);
    }
    lemma_devices_len(ls);
}

proof fn lemma_devices_len(ls: Seq<Seq<char>>)
    ensures
        line_devices(ls).len() <= ls.len(),
    decreases ls.len(),
{
    if ls.len() > 0 {
        lemma_devices_len(ls.drop_last());
    }
}

/// The compute capability that a variant names in digits is the one it is compiled
/// for, with or without a dash behind it.
pub proof fn law_variants_name_their_capability(n: u32)
    ensures
        variant_cap(decimal(n as nat)) == Some(n),
        variant_cap(decimal(n as nat).push('-')) == Some(n),
        variant_cap(Seq::empty()) == Some(80u32),
        variant_cap("cpu"@) is None,
        variant_cap("hopper"@) == Some(90u32),
{
    let d = decimal(n as nat);
    let none: Seq<char> = Seq::empty();
    lemma_bare_number(n as nat);
    lemma_digits_hold_none_of(n as nat, Class::One('-'));
    lemma_trimmed(none, d);
    assert(none + d =~= d);
    lemma_trimmed(none, d.push('-'));
    assert(none + d.push('-') =~= d.push('-'));
    assert(!Class::One('-').has(d[d.len() - 1]));
    assert(drop_while(d, Class::One('-')) == d);
    assert(d.push('-').drop_last() =~= d);
    assert(drop_while(d.push('-'), Class::One('-')) == d);
    crate::text::law_decimals_are_read_back(n as nat, u32::MAX as nat);
    crate::text::law_decimals_stand_for_their_numbers(n as nat);
    reveal_strlit("");
    reveal_strlit("89");
    reveal_strlit("hopper");
    reveal_strlit("120");
    reveal_strlit("121");
    reveal_strlit("cpu");
    assert(crate::text::is_digit(d[0]));
    assert(d != "cpu"@ && d != "hopper"@);
    reveal_with_fuel(crate::text::digits_value, 4);
    if d == "89"@ {
        assert(d.drop_last().drop_last() =~= Seq::empty());
        assert(d.drop_last() =~= seq!['8']);
        assert(n == 89);
    } else if d == "120"@ {
        assert(d.drop_last() =~= seq!['1', '2']);
        assert(d.drop_last().drop_last() =~= seq!['1']);
        assert(d.drop_last().drop_last().drop_last() =~= Seq::empty());
        assert(n == 120);
    } else if d == "121"@ {
        assert(d.drop_last() =~= seq!['1', '2']);
        assert(d.drop_last().drop_last() =~= seq!['1']);
        assert(d.drop_last().drop_last().drop_last() =~= Seq::empty());
        assert(n == 121);
    }
    assert(none =~= ""@);
    assert(variant_name(none) =~= none);
    lemma_trimmed(none, "cpu"@);
    assert(none + "cpu"@ =~= "cpu"@);
    lemma_trimmed(none, "hopper"@);
    assert(none + "hopper"@ =~= "hopper"@);
    assert(variant_name("cpu"@) == "cpu"@);
    assert(variant_name("hopper"@) == "hopper"@);
}

/// Whether a device is known to be of another kind than what an image carries.
pub open spec fn misfit(compiled: u32) -> spec_fn(GpuDevice) -> bool {
    |d: GpuDevice|
        d.compute_cap matches Some(cap) && !(cap.0 == compiled / 10 && cap.1 >= compiled % 10)
}

/// There is one message for each device that cannot run what an image carries, in
/// the order of the devices, and one more where the driver is too old; a device
/// whose capability is not known is not told of.
pub proof fn law_every_problem_is_told_of_once(
    info: GpuInfo,
    variant: Option<Seq<char>>,
    host: HostDriver,
    required: Option<(u32, u32)>,
    compiled: u32,
)
    ensures
        cap_messages(info.devices@, compiled) == info.devices@.filter(misfit(compiled)).map_values(
            |d: GpuDevice| cap_message(d, d.compute_cap->0, compiled),
        ),
        ({
            let caps = match variant {
                Some(v) => match variant_cap(v) {
                    Some(c) => info.devices@.filter(misfit(c)).len(),
                    None => 0,
                },
                None => 0,
            };
            let old = match (host.cuda_version, required) {
                (Some(has), Some(needs)) => has.0 < needs.0 || (has.0 == needs.0 && has.1
                    < needs.1),
                _ => false,
            };
            preflight_messages(info, variant, host, required).len() == caps + (if old {
                1nat
            } else {
                0nat
            })
        }),
{
    lemma_cap_messages(info.devices@, compiled);
    if let Some(v) = variant {
        if let Some(c) = variant_cap(v) {
            lemma_cap_messages(info.devices@, c);
        }
    }
}

proof fn lemma_cap_messages(devices: Seq<GpuDevice>, compiled: u32)
    ensures
        cap_messages(devices, compiled) == devices.filter(misfit(compiled)).map_values(
            |d: GpuDevice| cap_message(d, d.compute_cap->0, compiled),
        ),
        cap_messages(devices, compiled).len() == devices.filter(misfit(compiled)).len(),
    decreases devices.len(),
{
    reveal(Seq::filter);
    let say = |d: GpuDevice| cap_message(d, d.compute_cap->0, compiled);
    if devices.len() > 0 {
        lemma_cap_messages(devices.drop_last(), compiled);
    }
    assert(cap_messages(devices, compiled) =~= devices.filter(misfit(compiled)).map_values(say));
}

/// The CUDA version that is required is that of the first term that says so; terms
/// about anything else are passed over.
pub proof fn law_the_first_requirement_counts(terms: Seq<Seq<char>>, i: int, v: (u32, u32))
    requires
        0 <= i < terms.len(),
        forall|j: int| 0 <= j < i ==> term_cuda(#[trigger] terms[j]) is None,
        terms[i] == "cuda>="@ + (decimal(v.0 as nat) + "."@ + decimal(v.1 as nat)),
    ensures
        first_cuda(terms) == Some(v),
    decreases i,
{
    if i > 0 {
        assert(term_cuda(terms[0]) is None);
        let rest = terms.drop_first();
        assert forall|j: int| 0 <= j < i - 1 implies term_cuda(#[trigger] rest[j]) is None by {
            assert(rest[j] == terms[j + 1]);
        }
        law_the_first_requirement_counts(rest, i - 1, v);
    } else {
        let text = decimal(v.0 as nat) + "."@ + decimal(v.1 as nat);
        let none: Seq<char> = Seq::empty();
        crate::text::law_prefixes_are_taken_off(text, "cuda>="@);
        law_versions_are_read_back(v.0, v.1);
        lemma_bare_number(v.0 as nat);
        lemma_bare_number(v.1 as nat);
        lemma_trimmed(none, text);
        assert(none + text =~= text);
    }
}

/// A term asks for a CUDA version only if it begins with `cuda>=`, and where no term
/// does, none is required.
pub proof fn law_other_requirements_do_not_count(terms: Seq<Seq<char>>)
    requires
        forall|j: int| 0 <= j < terms.len() ==> !"cuda>="@.is_prefix_of(#[trigger] terms[j]),
    ensures
        first_cuda(terms) is None,
    decreases terms.len(),
{
    if terms.len() > 0 {
        assert(!"cuda>="@.is_prefix_of(terms[0]));
        let rest = terms.drop_first();
        assert forall|j: int| 0 <= j < rest.len() implies !"cuda>="@.is_prefix_of(
            #[trigger] rest[j],
        ) by {
            assert(rest[j] == terms[j + 1]);
        }
        law_other_requirements_do_not_count(rest);
    }
}

/// The memory that is available is what the first line about it says; lines about
/// anything else are passed over.
pub proof fn law_available_memory_is_read_back(ls: Seq<Seq<char>>, i: int, kib: u64)
    requires
        0 <= i < ls.len(),
        forall|j: int| 0 <= j < i ==> !"MemAvailable:"@.is_prefix_of(#[trigger] ls[j]),
        ls[i] == "MemAvailable:"@ + " "@ + decimal(kib as nat) + " kB"@,
    ensures
        available_kib(ls) == Some(kib),
    decreases i,
{
    if i > 0 {
        assert(!"MemAvailable:"@.is_prefix_of(ls[0]));
        let rest = ls.drop_first();
        assert forall|j: int| 0 <= j < i - 1 implies !"MemAvailable:"@.is_prefix_of(
            #[trigger] rest[j],
        ) by {
            assert(rest[j] == ls[j + 1]);
        }
        law_available_memory_is_read_back(rest, i - 1, kib);
    } else {
        reveal_strlit(" ");
        reveal_strlit(" kB");
        let d = decimal(kib as nat);
        let s = " "@ + d + " kB"@;
        assert("MemAvailable:"@ + " "@ + d + " kB"@ =~= "MemAvailable:"@ + s);
        crate::text::law_prefixes_are_taken_off(s, "MemAvailable:"@);
        lemma_bare_number(kib as nat);
        lemma_digits_hold_none_of(kib as nat, Class::White);
        crate::text::law_first_words_stand_alone(s);
        let w = first_word(s)->0;
        if first_word(s) is None {
            assert(Class::White.has(s[1]));
        }
        let a = choose|a: int|
            0 <= a && a + w.len() <= s.len() && w == #[trigger] s.subrange(a, a + w.len())
                && crate::text::all_of(s.take(a), Class::White) && (a + w.len() == s.len()
                || crate::text::is_white(s[a + w.len()]));
        assert(s[0] == ' ' && s[1] == d[0]);
        if a == 0 {
            assert(w[0] == s[0]);
            assert(!Class::White.has(w[0]));
        }
        if a > 1 {
            assert(Class::White.has(s.take(a)[1]));
        }
        let n = d.len() as int;
        assert(s[1 + n] == ' ');
        if w.len() < n {
            assert(s[1 + w.len() as int] == d[w.len() as int]);
            assert(!Class::White.has(d[w.len() as int]));
        }
        if w.len() > n {
            assert(w[n] == s[1 + n]);
            assert(!Class::White.has(w[n]));
        }
        assert(w =~= d);
        crate::text::law_decimals_are_read_back(kib as nat, u64::MAX as nat);
    }
}

/// What follows a label is read: behind spaces and colons, up to white space or a
/// bar.
pub proof fn law_labeled_values_are_read_back(
    before: Seq<char>,
    label: Seq<char>,
    gap: Seq<char>,
    value: Seq<char>,
    end: char,
    rest: Seq<char>,
)
    requires
        value.len() > 0,
        crate::text::none_of(value, Class::WhiteOr('|')),
        value[0] != ':',
        crate::text::all_of(gap, Class::Two(' ', ':')),
        Class::WhiteOr('|').has(end),
        forall|j: int|
            0 <= j < before.len() ==> !crate::text::stands_at(
                before + label + gap + value.push(end) + rest,
                label,
                j,
            ),
    ensures
        labeled(before + label + gap + value.push(end) + rest, label) == Some(value),
{
    let s = before + label + gap + value.push(end) + rest;
    crate::text::law_searches_find_the_first_place(s, label, 0);
    let b = before.len() as int;
    assert(s.subrange(b, b + label.len()) =~= label);
    assert(crate::text::stands_at(s, label, b));
    let at = find_from(s, label, 0);
    match at {
        Some(i) => {
            if i < b {
                assert(crate::text::stands_at(s, label, i));
            }
            assert(i <= b);
            assert(i == b);
        },
        None => {
            assert(s.subrange(b, b + label.len()) != label);
        },
    }
    let tail = s.skip(b + label.len());
    assert(tail =~= gap + value.push(end) + rest);
    let skip = Class::Two(' ', ':');
    crate::text::law_skipping_stops_at_the_first_other(tail, skip);
    let left = skip_while(tail, skip);
    let n = tail.len() - left.len();
    assert(!Class::WhiteOr('|').has(value[0]));
    if n > gap.len() {
        assert(skip.has(tail.take(n)[gap.len() as int]));
        assert(tail[gap.len() as int] == value[0]);
    }
    if n < gap.len() {
        assert(left[0] == tail[n]);
        assert(skip.has(gap[n]));
    }
    assert(left =~= value.push(end) + rest);
    let stop = Class::WhiteOr('|');
    crate::text::law_until_counts_up_to_the_first(left, stop);
    let k = until(left, stop) as int;
    let len = value.len() as int;
    if k < len {
        assert(stop.has(left[k]));
        assert(left[k] == value[k]);
        assert(!stop.has(value[k]));
    }
    if k > len {
        assert(!stop.has(left.take(k)[len]));
    }
    assert(left.take(k) =~= value);
}

/// What is said of a driver that is too old names the driver and both versions, and
/// what is said of a device names it, its capability, what the image carries and
/// what to use instead.
pub proof fn law_problems_are_named(
    host: HostDriver,
    has: (u32, u32),
    needs: (u32, u32),
    d: GpuDevice,
    cap: (u32, u32),
    compiled: u32,
)
    requires
        host.cuda_version == Some(has),
        has.0 < needs.0 || (has.0 == needs.0 && has.1 < needs.1),
    ensures
        ({
            let driver = match host.driver_version {
                Some(v) => v@,
                None => "(unknown version)"@,
            };
            let version = |v: (u32, u32)| decimal(v.0 as nat) + "."@ + decimal(v.1 as nat);
            driver_fault(host, Some(needs)) matches Some(m) && m == "host driver "@ + driver
                + " supports CUDA "@ + version(has)
                + " but this image's CUDA userspace requires "@ + version(needs)
                + "; GeForce GPUs have no forward compatibility — TEI will silently fall back to CPU. Use a host with driver CUDA >= "@
                + version(needs)
        }),
        cap_message(d, cap, compiled) == "GPU "@ + decimal(d.index as nat) + " ("@ + d.name@
            + ") is compute capability "@ + (decimal(cap.0 as nat) + "."@ + decimal(cap.1 as nat))
            + " but this image's TEI is compiled for sm_"@ + decimal(compiled as nat) + "; use the "@
            + suggestion(cap) + " image"@,
{
    let m = driver_fault(host, Some(needs))->0;
    let driver = match host.driver_version {
        Some(v) => v@,
        None => "(unknown version)"@,
    };
    let version = |v: (u32, u32)| decimal(v.0 as nat) + "."@ + decimal(v.1 as nat);
    assert(m =~= "host driver "@ + driver + " supports CUDA "@ + version(has)
        + " but this image's CUDA userspace requires "@ + version(needs)
        + "; GeForce GPUs have no forward compatibility — TEI will silently fall back to CPU. Use a host with driver CUDA >= "@
        + version(needs));
    assert(cap_message(d, cap, compiled) =~= "GPU "@ + decimal(d.index as nat) + " ("@ + d.name@
        + ") is compute capability "@ + (decimal(cap.0 as nat) + "."@ + decimal(cap.1 as nat))
        + " but this image's TEI is compiled for sm_"@ + decimal(compiled as nat) + "; use the "@
        + suggestion(cap) + " image"@);
}

/// A value that says that there is none is none, and any other is itself.
pub proof fn law_unavailable_values_are_left_out(value: Seq<char>)
    ensures
        available(None) is None,
        available(Some("[N/A]"@)) is None,
        value != "[N/A]"@ ==> available(Some(value)) == Some(value),
{
}

/// Free memory is that of the GPU asked for, and nothing where there is no such GPU;
/// where any will do it is the least that is reported.
pub proof fn law_free_memory_is_that_of_the_gpu(info: GpuInfo, id: u32)
    ensures
        id < info.devices@.len() ==> free_vram(info, Some(id))
            == info.devices@[id as int].memory_free_mib,
        id >= info.devices@.len() ==> free_vram(info, Some(id)) is None,
        free_vram(info, None) is Some <==> exists|i: int|
            0 <= i < info.devices@.len() && (
            #[trigger] info.devices@[i]).memory_free_mib is Some,
        forall|i: int|
            0 <= i < info.devices@.len() ==> ((
            #[trigger] info.devices@[i]).memory_free_mib matches Some(f) ==> (free_vram(
                info,
                None,
            ) matches Some(m) && m <= f)),
{
    law_least_free_is_a_lower_bound(info.devices@);
}

/// What follows a label up to the end of the text is read too, and nothing is read
/// where the label does not stand.
pub proof fn law_labels_may_be_last_or_missing(
    before: Seq<char>,
    label: Seq<char>,
    gap: Seq<char>,
    value: Seq<char>,
    other: Seq<char>,
)
    requires
        value.len() > 0,
        crate::text::none_of(value, Class::WhiteOr('|')),
        value[0] != ':',
        crate::text::all_of(gap, Class::Two(' ', ':')),
        forall|j: int|
            0 <= j < before.len() ==> !crate::text::stands_at(
                before + label + gap + value,
                label,
                j,
            ),
        !crate::text::contains(other, label),
    ensures
        labeled(before + label + gap + value, label) == Some(value),
        labeled(other, label) is None,
{
    let s = before + label + gap + value;
    crate::text::law_searches_find_the_first_place(s, label, 0);
    crate::text::law_searches_find_the_first_place(other, label, 0);
    if let Some(i) = find_from(other, label, 0) {
        assert(crate::text::stands_at(other, label, i));
    }
    let b = before.len() as int;
    assert(s.subrange(b, b + label.len()) =~= label);
    assert(crate::text::stands_at(s, label, b));
    match find_from(s, label, 0) {
        Some(i) => {
            if i < b {
                assert(crate::text::stands_at(s, label, i));
            }
            assert(i <= b);
            assert(i == b);
        },
        None => {
            assert(s.subrange(b, b + label.len()) != label);
        },
    }
    let tail = s.skip(b + label.len());
    assert(tail =~= gap + value);
    let skip = Class::Two(' ', ':');
    crate::text::law_skipping_stops_at_the_first_other(tail, skip);
    let left = skip_while(tail, skip);
    let n = tail.len() - left.len();
    assert(!Class::WhiteOr('|').has(value[0]));
    if n > gap.len() {
        assert(skip.has(tail.take(n)[gap.len() as int]));
        assert(tail[gap.len() as int] == value[0]);
    }
    if n < gap.len() {
        assert(left[0] == tail[n]);
        assert(skip.has(gap[n]));
    }
    assert(left =~= value);
    let stop = Class::WhiteOr('|');
    crate::text::law_until_counts_up_to_the_first(left, stop);
    let k = until(left, stop) as int;
    if k < value.len() {
        assert(stop.has(left[k]));
        assert(!stop.has(value[k]));
    }
    assert(left.take(k) =~= value);
}

/// A line describes a device exactly when its first column is a number. What is not
/// there, or is no number or version, is unknown, and does not keep the rest from
/// being read.
pub proof fn law_columns_are_read_on_their_own(line: Seq<char>)
    ensures
        ({
            let pieces = split(line, Class::One(','));
            let column = |i: int| trimmed(pieces[i]);
            &&& line_device(line) is Some <==> number_u32(column(0)) is Some
            &&& line_device(line) matches Some(d) ==> {
                &&& Some(d.index) == number_u32(column(0))
                &&& d.name == (if pieces.len() > 1 {
                    column(1)
                } else {
                    Seq::empty()
                })
                &&& d.compute_cap == (if pieces.len() > 2 {
                    version(column(2))
                } else {
                    None
                })
                &&& d.memory_total_mib == (if pieces.len() > 3 {
                    number_u64(column(3))
                } else {
                    None
                })
                &&& d.memory_free_mib == (if pieces.len() > 4 {
                    number_u64(column(4))
                } else {
                    None
                })
            }
        }),
{
    crate::text::lemma_split_len(line, Class::One(','));
}

/// A version is two numbers with the first point between them, and nothing else is
/// one.
pub proof fn law_versions_have_two_parts(s: Seq<char>)
    ensures
        version(s) matches Some(v) ==> exists|a: Seq<char>, b: Seq<char>|
            s == #[trigger] (a.push('.') + b) && !a.contains('.') && unsigned_upto(
                a,
                u32::MAX as nat,
            ) == Some(v.0 as nat) && unsigned_upto(b, u32::MAX as nat) == Some(v.1 as nat),
        !s.contains('.') ==> version(s) is None,
{
    crate::text::law_texts_are_parted_once(s, '.');
    if let Some(v) = version(s) {
        let (a, b) = split_once(s, '.')->0;
        assert(s == a.push('.') + b);
    }
    if !s.contains('.') {
        if let Some((a, b)) = split_once(s, '.') {
            assert(s[a.len() as int] == '.');
        }
    }
}

} // verus!
