use vstd::prelude::*;

verus! {

#[derive(Debug, Clone, PartialEq, Eq)]
pub struct ComputerModel {
    pub manufacturer: String,
    pub model_family: String,
    pub model: String,
    pub serial_number: String,
}

#[derive(Debug, Clone, PartialEq, Eq)]
pub struct MemoryStick {
    pub bank_label: String,
    pub capacity: u64,
}

#[derive(Debug, Clone)]
pub struct PhysicalMemory {
    pub sticks: Vec<MemoryStick>,
}

#[derive(Debug, Clone, PartialEq, Eq)]
pub struct Processor {
    pub name: String,
    pub manufacturer: String,
    pub cores: u32,
    pub logical_cores: u32,
    pub clock_speed: u32,
    pub address_width: u16,
}

#[derive(Debug, Clone, PartialEq, Eq)]
pub struct DiskDrive {
    pub model: String,
    pub serial_number: String,
    pub size: u64,
    pub device_id: String,
    pub status: String,
    pub media_type: String,
}

#[derive(Debug, Clone)]
pub struct Disks {
    pub drives: Vec<DiskDrive>,
}

#[derive(Debug, Clone)]
pub struct NetworkAdapter {
    pub name: String,
    pub mac_address: Option<String>,
    pub ip_addresses: Option<Vec<String>>,
}

#[derive(Debug, Clone)]
pub struct Network {
    pub adapter: Vec<NetworkAdapter>,
}

#[derive(Debug, Clone, PartialEq, Eq)]
pub struct GraphicsCard {
    pub name: String,
}

#[derive(Debug, Clone, PartialEq, Eq)]
pub struct BIOS {
    pub manufacturer: String,
    pub name: String,
    pub version: String,
}

#[derive(Debug, Clone, PartialEq, Eq)]
pub struct Battery {
    pub id: String,
    pub manufacturer: String,
    pub serial_number: String,
    pub chemistry: String,
    pub cycle_count: u32,
    pub designed_capacity: u32,
    pub full_charged_capacity: u32,
}

#[derive(Debug, Clone)]
pub struct BatteryStatus {
    pub batteries: Vec<Battery>,
}

/// Hardware facts of an endpoint, with every graphics card it has.
#[derive(Debug, Clone)]
pub struct HardwareInfoV2 {
    pub model: ComputerModel,
    pub memory: PhysicalMemory,
    pub processor: Processor,
    pub disks: Disks,
    pub network: Network,
    pub graphics: Vec<GraphicsCard>,
    pub bios: BIOS,
}

/// A stored graphics card of an endpoint.
#[derive(Debug, Clone, PartialEq, Eq)]
pub struct StoredGraphicsCard {
    pub id: i32,
    pub client_id: i32,
    pub name: String,
}

pub open spec fn card_stored(rows: Seq<StoredGraphicsCard>, name: Seq<char>) -> bool {
    exists|i: int| 0 <= i < rows.len() && rows[i].name@ == name
}

pub open spec fn card_reported(cards: Seq<GraphicsCard>, name: Seq<char>) -> bool {
    exists|i: int| 0 <= i < cards.len() && cards[i].name@ == name
}

/// Names of reported cards that are not stored, in report order.
pub open spec fn cards_to_add(cards: Seq<GraphicsCard>, rows: Seq<StoredGraphicsCard>) -> Seq<Seq<char>>
    decreases cards.len(),
{
    if cards.len() == 0 {
        Seq::empty()
    } else {
        let prev = cards_to_add(cards.drop_last(), rows);
        if !card_stored(rows, cards.last().name@) {
            prev.push(cards.last().name@)
        } else {
            prev
        }
    }
}

/// Ids of stored cards that are no longer reported, in row order.
pub open spec fn cards_to_delete(rows: Seq<StoredGraphicsCard>, cards: Seq<GraphicsCard>) -> Seq<i32>
    decreases rows.len(),
{
    if rows.len() == 0 {
        Seq::empty()
    } else {
        let prev = cards_to_delete(rows.drop_last(), cards);
        if !card_reported(cards, rows.last().name@) {
            prev.push(rows.last().id)
        } else {
            prev
        }
    }
}

/// Diffs reported graphics cards against the stored ones by name: the names
/// to insert and the ids of the rows to delete.
pub fn plan_graphics_cards(existing: &Vec<StoredGraphicsCard>, incoming: &Vec<GraphicsCard>) -> (r: (Vec<String>, Vec<i32>))
    ensures
        r.0@.map_values(|s: String| s@) == cards_to_add(incoming@, existing@),
        r.1@ == cards_to_delete(existing@, incoming@),
{
    let mut to_add: Vec<String> = Vec::new();
    let mut i: usize = 0;
    while i < incoming.len()
        invariant
            i <= incoming@.len(),
            to_add@.map_values(|s: String| s@) == cards_to_add(incoming@.subrange(0, i as int), existing@),
        decreases incoming@.len() - i,
    {
        assert(incoming@.subrange(0, i + 1).drop_last() =~= incoming@.subrange(0, i as int));
        assert(incoming@.subrange(0, i + 1).last() == incoming@[i as int]);
        let mut found = false;
        let mut k: usize = 0;
        while k < existing.len()
            invariant
                k <= existing@.len(),
                i < incoming@.len(),
                found == exists|j: int| 0 <= j < k && existing@[j].name@ == incoming@[i as int].name@,
            decreases existing@.len() - k,
        {
            if existing[k].name == incoming[i].name {
                found = true;
            }
            k = k + 1;
        }
        if !found {
            let ghost prev = to_add@.map_values(|s: String| s@);
            to_add.push(incoming[i].name.clone());
            assert(to_add@.map_values(|s: String| s@) =~= prev.push(incoming@[i as int].name@));
        }
        i = i + 1;
    }
    assert(incoming@.subrange(0, incoming@.len() as int) =~= incoming@);
    let mut to_delete: Vec<i32> = Vec::new();
    let mut k: usize = 0;
    while k < existing.len()
        invariant
            k <= existing@.len(),
            to_delete@ == cards_to_delete(existing@.subrange(0, k as int), incoming@),
        decreases existing@.len() - k,
    {
        assert(existing@.subrange(0, k + 1).drop_last() =~= existing@.subrange(0, k as int));
        assert(existing@.subrange(0, k + 1).last() == existing@[k as int]);
        let mut found = false;
        let mut j: usize = 0;
        while j < incoming.len()
            invariant
                j <= incoming@.len(),
                k < existing@.len(),
                found == exists|x: int| 0 <= x < j && incoming@[x].name@ == existing@[k as int].name@,
            decreases incoming@.len() - j,
        {
            if incoming[j].name == existing[k].name {
                found = true;
            }
            j = j + 1;
        }
        if !found {
            to_delete.push(existing[k].id);
        }
        k = k + 1;
    }
    assert(existing@.subrange(0, existing@.len() as int) =~= existing@);
    (to_add, to_delete)
}

/// Collector-side hardware facts.
pub struct Hardware;

impl Hardware {
    /// The battery report of an endpoint from the battery flag of its power
    /// status: the batteries found are reported where the flag's high bit is
    /// set, none otherwise.
    pub fn get_battery_status(battery_flag: u8, batteries: Vec<Battery>) -> (r: BatteryStatus)
        ensures
            battery_flag >= 128 ==> r.batteries@ == batteries@,
            battery_flag < 128 ==> r.batteries@.len() == 0,
    {
        if battery_flag & 0x80u8 == 0x80u8 {
            assert(battery_flag & 0x80u8 == 0x80u8 ==> battery_flag >= 128) by (bit_vector);
            BatteryStatus { batteries }
        } else {
            assert(battery_flag & 0x80u8 != 0x80u8 ==> battery_flag < 128) by (bit_vector);
            BatteryStatus { batteries: Vec::new() }
        }
    }
}

} // verus!
