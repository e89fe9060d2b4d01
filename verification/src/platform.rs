//! Devices and the choice among them: the platform lists the devices of each
//! kind, the context holds the size thresholds that decide which kind of
//! device an operation runs on, and a queue binds a context to the device
//! chosen for one evaluation.

use std::sync::atomic::AtomicUsize;
use std::sync::atomic::Ordering;
use std::sync::Arc;
use vstd::prelude::*;
use crate::error::Error;

verus! {

/// The number of elements from which work goes to a GPU, unless set otherwise.
pub const GPU_MIN_DEFAULT: usize = 1024;

/// The kinds of device that a platform may offer.
#[derive(Clone, Copy, Debug, PartialEq, Eq, Structural)]
pub enum DeviceKind {
    Cpu,
    Gpu,
    Accelerator,
}

/// One device of a platform: its kind, and its position among the devices of that kind.
#[derive(Clone, Copy, Debug, PartialEq, Eq, Structural)]
pub struct Device {
    pub kind: DeviceKind,
    pub index: usize,
}

/// A counter that the copies of a device list share.
#[derive(Clone, Debug)]
pub struct Turn {
    next: Arc<AtomicUsize>,
}

impl Turn {
    /// A counter that starts at zero.
    pub fn new() -> Turn {
        Turn { next: Arc::new(AtomicUsize::new(0)) }
    }

    /// Takes the next ticket. Other holders of the counter take tickets too,
    /// so nothing is known of the number.
    pub fn take(&self) -> usize {
        self.next.fetch_add(1, Ordering::Relaxed)
    }
}

/// The devices of one kind, handed out in turn. A device of the list is known by its position.
#[derive(Debug)]
pub struct DeviceList {
    len: usize,
    turn: Turn,
}

impl Clone for DeviceList {
    fn clone(&self) -> (copy: Self)
        ensures
            copy.count() == self.count(),
    {
        DeviceList { len: self.len, turn: self.turn.clone() }
    }
}

impl DeviceList {
    /// The number of devices in the list.
    pub closed spec fn count(&self) -> nat {
        self.len as nat
    }

    /// A list of `len` devices.
    pub fn new(len: usize) -> (list: DeviceList)
        ensures
            list.count() == len,
    {
        DeviceList { len, turn: Turn::new() }
    }

    /// Whether the list holds no device.
    pub fn is_empty(&self) -> (empty: bool)
        ensures
            empty == (self.count() == 0),
    {
        self.len == 0
    }

    /// The number of devices in the list.
    pub fn len(&self) -> (len: usize)
        ensures
            len == self.count(),
    {
        self.len
    }

    /// The position of the device that a ticket falls on: the tickets go round the list.
    pub open spec fn device_at(&self, ticket: int) -> Option<usize> {
        if self.count() == 0 {
            None
        } else {
            Some((ticket % (self.count() as int)) as usize)
        }
    }

    /// The position of the device that `ticket` falls on, or `None` where the list is empty.
    pub fn at(&self, ticket: usize) -> (index: Option<usize>)
        ensures
            index == self.device_at(ticket as int),
    {
        if self.len == 0 {
            None
        } else {
            Some(ticket % self.len)
        }
    }

    /// The position of the next device of the list in turn, or `None` where
    /// the list is empty. Which device it is depends on who else has asked.
    pub fn next(&self) -> (index: Option<usize>)
        ensures
            index is Some == (self.count() > 0),
            index matches Some(i) ==> i < self.count(),
    {
        if self.len == 0 {
            None
        } else {
            let ticket: usize = self.turn.take();
            self.at(ticket)
        }
    }
}

/// The devices that work can run on, by kind.
#[derive(Debug)]
pub struct Platform {
    cpus: DeviceList,
    gpus: DeviceList,
    accs: DeviceList,
}

impl Clone for Platform {
    fn clone(&self) -> (copy: Self)
        ensures
            copy.counts() == self.counts(),
    {
        Platform { cpus: self.cpus.clone(), gpus: self.gpus.clone(), accs: self.accs.clone() }
    }
}

impl Default for Platform {
    /// A platform without devices: all work runs on the host.
    fn default() -> (platform: Self)
        ensures
            platform.counts() == (0nat, 0nat, 0nat),
    {
        Platform::new(0, 0, 0)
    }
}

impl Platform {
    /// The numbers of CPU, GPU and accelerator devices, in that order.
    pub closed spec fn counts(&self) -> (nat, nat, nat) {
        (self.cpus.count(), self.gpus.count(), self.accs.count())
    }

    /// The number of devices of one kind.
    pub open spec fn count_of(&self, kind: DeviceKind) -> nat {
        match kind {
            DeviceKind::Cpu => self.counts().0,
            DeviceKind::Gpu => self.counts().1,
            DeviceKind::Accelerator => self.counts().2,
        }
    }

    /// A platform with the given numbers of CPU, GPU and accelerator devices.
    pub fn new(cpus: usize, gpus: usize, accs: usize) -> (platform: Platform)
        ensures
            platform.counts() == (cpus as nat, gpus as nat, accs as nat),
    {
        Platform {
            cpus: DeviceList::new(cpus),
            gpus: DeviceList::new(gpus),
            accs: DeviceList::new(accs),
        }
    }

    /// Whether the platform has a GPU.
    pub fn has_gpu(&self) -> (has: bool)
        ensures
            has == (self.count_of(DeviceKind::Gpu) > 0),
    {
        !self.gpus.is_empty()
    }

    /// The next CPU device in turn, if there is any.
    pub fn next_cpu(&self) -> (device: Option<Device>)
        ensures
            device is Some == (self.count_of(DeviceKind::Cpu) > 0),
            device matches Some(d) ==> d.kind == DeviceKind::Cpu && d.index < self.count_of(
                DeviceKind::Cpu,
            ),
    {
        match self.cpus.next() {
            Some(index) => Some(Device { kind: DeviceKind::Cpu, index }),
            None => None,
        }
    }

    /// The next GPU device in turn, if there is any.
    pub fn next_gpu(&self) -> (device: Option<Device>)
        ensures
            device is Some == (self.count_of(DeviceKind::Gpu) > 0),
            device matches Some(d) ==> d.kind == DeviceKind::Gpu && d.index < self.count_of(
                DeviceKind::Gpu,
            ),
    {
        match self.gpus.next() {
            Some(index) => Some(Device { kind: DeviceKind::Gpu, index }),
            None => None,
        }
    }

    /// The next accelerator device in turn, if there is any.
    pub fn next_acc(&self) -> (device: Option<Device>)
        ensures
            device is Some == (self.count_of(DeviceKind::Accelerator) > 0),
            device matches Some(d) ==> d.kind == DeviceKind::Accelerator && d.index < self.count_of(
                DeviceKind::Accelerator,
            ),
    {
        match self.accs.next() {
            Some(index) => Some(Device { kind: DeviceKind::Accelerator, index }),
            None => None,
        }
    }
}

/// The kind of device that an operation on `size_hint` elements runs on, given
/// the two thresholds and the numbers of devices of each kind: below
/// `gpu_min` a CPU; from there and below `acc_min` a GPU, else a CPU; from
/// `acc_min` on an accelerator, else a GPU, else a CPU; `None` where no device
/// of the kinds in question exists.
pub open spec fn device_class(
    size_hint: int,
    gpu_min: int,
    acc_min: int,
    counts: (nat, nat, nat),
) -> Option<DeviceKind> {
    if size_hint >= gpu_min && size_hint >= acc_min && counts.2 > 0 {
        Some(DeviceKind::Accelerator)
    } else if size_hint >= gpu_min && counts.1 > 0 {
        Some(DeviceKind::Gpu)
    } else if counts.0 > 0 {
        Some(DeviceKind::Cpu)
    } else {
        None
    }
}

/// The devices at hand and the thresholds that choose among them.
#[derive(Debug)]
pub struct Context {
    platform: Platform,
    gpu_min: usize,
    acc_min: usize,
}

impl Clone for Context {
    fn clone(&self) -> (copy: Self)
        ensures
            copy.gpu_min() == self.gpu_min(),
            copy.acc_min() == self.acc_min(),
            copy.counts() == self.counts(),
    {
        Context { platform: self.platform.clone(), gpu_min: self.gpu_min, acc_min: self.acc_min }
    }
}

/// What a context is set to: the two thresholds, and the numbers of CPU, GPU
/// and accelerator devices.
pub type Settings = (usize, usize, (nat, nat, nat));

impl Context {
    /// What the context is set to.
    pub open spec fn settings(&self) -> Settings {
        (self.gpu_min(), self.acc_min(), self.counts())
    }

    /// The number of elements from which work goes to a GPU.
    pub closed spec fn gpu_min(&self) -> usize {
        self.gpu_min
    }

    /// The number of elements from which work goes to an accelerator.
    pub closed spec fn acc_min(&self) -> usize {
        self.acc_min
    }

    /// The numbers of CPU, GPU and accelerator devices of the platform.
    pub closed spec fn counts(&self) -> (nat, nat, nat) {
        self.platform.counts()
    }

    /// The kind of device that an operation on `size_hint` elements runs on in this context.
    pub open spec fn class_for(&self, size_hint: int) -> Option<DeviceKind> {
        device_class(size_hint, self.gpu_min() as int, self.acc_min() as int, self.counts())
    }

    /// A context without devices, with the default thresholds.
    pub fn default() -> (context: Result<Context, Error>)
        ensures
            context matches Ok(c) && c.gpu_min() == GPU_MIN_DEFAULT && c.acc_min()
                == GPU_MIN_DEFAULT && c.counts() == (0nat, 0nat, 0nat),
    {
        Ok(
            Context {
                platform: Platform::new(0, 0, 0),
                gpu_min: GPU_MIN_DEFAULT,
                acc_min: GPU_MIN_DEFAULT,
            },
        )
    }

    /// A context for `platform` with the default thresholds: work goes to a GPU
    /// from `GPU_MIN_DEFAULT` elements on, and to an accelerator from there on
    /// too, unless the platform has a GPU: then never.
    pub fn for_platform(platform: Platform) -> (context: Context)
        ensures
            context.counts() == platform.counts(),
            context.gpu_min() == GPU_MIN_DEFAULT,
            context.acc_min() == (if platform.count_of(DeviceKind::Gpu) > 0 {
                usize::MAX
            } else {
                GPU_MIN_DEFAULT
            }),
    {
        let acc_min: usize = if platform.has_gpu() {
            usize::MAX
        } else {
            GPU_MIN_DEFAULT
        };
        Context { platform, gpu_min: GPU_MIN_DEFAULT, acc_min }
    }

    /// A context with the given thresholds for the given platform, or for one
    /// without devices where none is given.
    pub fn new(gpu_min: usize, acc_min: usize, platform: Option<Platform>) -> (context: Result<
        Context,
        Error,
    >)
        ensures
            context matches Ok(c) && c.gpu_min() == gpu_min && c.acc_min() == acc_min
                && c.counts() == (match platform {
                Some(p) => p.counts(),
                None => (0nat, 0nat, 0nat),
            }),
    {
        let platform = match platform {
            Some(platform) => platform,
            None => Platform::new(0, 0, 0),
        };
        Ok(Context { platform, gpu_min, acc_min })
    }

    /// The kind of device that an operation on `size_hint` elements runs on.
    pub fn select_class(&self, size_hint: usize) -> (kind: Option<DeviceKind>)
        ensures
            kind == self.class_for(size_hint as int),
    {
        if size_hint >= self.gpu_min && size_hint >= self.acc_min && !self.platform.accs.is_empty() {
            Some(DeviceKind::Accelerator)
        } else if size_hint >= self.gpu_min && !self.platform.gpus.is_empty() {
            Some(DeviceKind::Gpu)
        } else if !self.platform.cpus.is_empty() {
            Some(DeviceKind::Cpu)
        } else {
            None
        }
    }

    /// The device that an operation on `size_hint` elements runs on: the next
    /// in turn of the kind that the thresholds choose. Which of the devices of
    /// that kind it is depends on who else has asked.
    pub fn select_device(&self, size_hint: usize) -> (device: Option<Device>)
        ensures
            device is Some == self.class_for(size_hint as int) is Some,
            device matches Some(d) ==> Some(d.kind) == self.class_for(size_hint as int)
                && d.index < self.platform_count(d.kind),
    {
        match self.select_class(size_hint) {
            Some(DeviceKind::Accelerator) => self.platform.next_acc(),
            Some(DeviceKind::Gpu) => self.platform.next_gpu(),
            Some(DeviceKind::Cpu) => self.platform.next_cpu(),
            None => None,
        }
    }

    /// The number of devices of one kind in the platform of this context.
    pub open spec fn platform_count(&self, kind: DeviceKind) -> nat {
        match kind {
            DeviceKind::Cpu => self.counts().0,
            DeviceKind::Gpu => self.counts().1,
            DeviceKind::Accelerator => self.counts().2,
        }
    }
}

/// What one evaluation runs on: a context, and the device chosen in it, if any.
#[derive(Debug)]
pub struct Queue {
    context: Context,
    device: Option<Device>,
}

impl Clone for Queue {
    fn clone(&self) -> (copy: Self)
        ensures
            copy.device() == self.device(),
            copy.context_view().gpu_min() == self.context_view().gpu_min(),
            copy.context_view().acc_min() == self.context_view().acc_min(),
            copy.context_view().counts() == self.context_view().counts(),
    {
        Queue { context: self.context.clone(), device: self.device }
    }
}

impl Queue {
    /// The device that the queue runs on; `None` where it runs on the host.
    pub closed spec fn device(&self) -> Option<Device> {
        self.device
    }

    /// The context of the queue, as a mathematical value.
    pub closed spec fn context_view(&self) -> Context {
        self.context
    }

    /// A queue on the host.
    pub fn default(context: Context) -> (queue: Queue)
        ensures
            queue.device() is None,
            queue.context_view() == context,
    {
        Queue { context, device: None }
    }

    /// A queue for an operation on `size_hint` elements: on the device that the
    /// context selects for that size, or on the host where it selects none.
    pub fn new(context: Context, size_hint: usize) -> (queue: Result<Queue, Error>)
        ensures
            queue is Ok,
            queue matches Ok(q) ==> q.context_view() == context,
            queue matches Ok(q) ==> q.device() is Some == context.class_for(size_hint as int) is Some,
            queue matches Ok(q) ==> (q.device() matches Some(d) ==> Some(d.kind) == context.class_for(
                size_hint as int,
            ) && d.index < context.platform_count(d.kind)),
    {
        let device = context.select_device(size_hint);
        Ok(Queue { context, device })
    }

    /// The device of the queue, if it runs on one.
    pub fn selected(&self) -> (device: Option<Device>)
        ensures
            device == self.device(),
    {
        self.device
    }

    /// The context of the queue.
    pub fn context(&self) -> (context: &Context)
        ensures
            *context == self.context_view(),
    {
        &self.context
    }

    /// A queue beside this one for a part of the work, of `size_hint` elements:
    /// on the device that the context selects for that size where this queue
    /// runs on a device, else on the host.
    pub fn split(&self, size_hint: usize) -> (queue: Result<Queue, Error>)
        ensures
            queue is Ok,
            queue matches Ok(q) ==> q.context_view().settings() == self.context_view().settings(),
            queue matches Ok(q) ==> q.device() is Some == (self.device() is Some
                && self.context_view().class_for(size_hint as int) is Some),
            queue matches Ok(q) ==> (q.device() matches Some(d) ==> Some(d.kind)
                == self.context_view().class_for(size_hint as int) && d.index
                < self.context_view().platform_count(d.kind)),
    {
        let device = match self.device {
            Some(_) => self.context.select_device(size_hint),
            None => None,
        };
        Ok(Queue { context: self.context.clone(), device })
    }

    /// The size hint for moving a host buffer of `len` elements to a device:
    /// the length, but the GPU threshold at least.
    pub fn transfer_hint(&self, len: usize) -> (hint: usize)
        ensures
            hint == (if len >= self.context_view().gpu_min() {
                len
            } else {
                self.context_view().gpu_min()
            }),
    {
        if len >= self.context.gpu_min {
            len
        } else {
            self.context.gpu_min
        }
    }
}

} // verus!
