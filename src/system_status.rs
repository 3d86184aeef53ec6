use vstd::prelude::*;

verus! {

/// A fixed-disk volume of an endpoint.
#[derive(Debug, Clone, PartialEq, Eq)]
pub struct Volume {
    pub drive_letter: String,
    pub label: Option<String>,
    pub file_system: String,
    pub capacity: u64,
    pub free_space: u64,
}

#[derive(Debug, Clone)]
pub struct VolumeList {
    pub volumes: Vec<Volume>,
}

/// A volume as the operating system describes it, every fact optional.
#[derive(Debug, Clone, PartialEq, Eq)]
pub struct VolumeProbe {
    pub capacity: Option<u64>,
    pub drive_letter: Option<String>,
    pub drive_type: u32,
    pub file_system: Option<String>,
    pub free_space: Option<u64>,
    pub label: Option<String>,
}

/// Drive type of a local fixed disk.
pub const FIXED_DISK: u32 = 3;

/// The probe describes a fixed disk with every fact that a report needs.
pub open spec fn is_reportable(v: VolumeProbe) -> bool {
    v.drive_type == FIXED_DISK && v.drive_letter is Some && v.capacity is Some && v.free_space is Some
        && v.file_system is Some
}

pub open spec fn volume_of(v: VolumeProbe) -> Volume {
    Volume {
        drive_letter: v.drive_letter.unwrap(),
        label: v.label,
        file_system: v.file_system.unwrap(),
        capacity: v.capacity.unwrap(),
        free_space: v.free_space.unwrap(),
    }
}

/// The reported volumes of a list of probes, in probe order.
pub open spec fn reported_volumes(vs: Seq<VolumeProbe>) -> Seq<Volume>
    decreases vs.len(),
{
    if vs.len() == 0 {
        Seq::empty()
    } else {
        let prev = reported_volumes(vs.drop_last());
        if is_reportable(vs.last()) {
            prev.push(volume_of(vs.last()))
        } else {
            prev
        }
    }
}

/// Collector-side volume status.
pub struct SystemStatus;

impl SystemStatus {
    /// Keeps the fixed disks whose letter, size, free space and file system are known.
    pub fn get_volume_status(probes: &Vec<VolumeProbe>) -> (r: VolumeList)
        ensures
            r.volumes@ == reported_volumes(probes@),
    {
        let mut volumes: Vec<Volume> = Vec::new();
        let mut i: usize = 0;
        while i < probes.len()
            invariant
                i <= probes@.len(),
                volumes@ == reported_volumes(probes@.subrange(0, i as int)),
            decreases probes@.len() - i,
        {
            let v = &probes[i];
            assert(probes@.subrange(0, i + 1).drop_last() =~= probes@.subrange(0, i as int));
            assert(probes@.subrange(0, i + 1).last() == *v);
            if v.drive_type == FIXED_DISK {
                match (&v.drive_letter, v.capacity, v.free_space, &v.file_system) {
                    (Some(letter), Some(capacity), Some(free_space), Some(fs)) => {
                        volumes.push(Volume {
                            drive_letter: letter.clone(),
                            label: crate::text::copy_opt_text(&v.label),
                            file_system: fs.clone(),
                            capacity,
                            free_space,
                        });
                    },
                    _ => {},
                }
            }
            i = i + 1;
        }
        assert(probes@.subrange(0, probes@.len() as int) =~= probes@);
        VolumeList { volumes }
    }
}

} // verus!
