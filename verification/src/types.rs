use vstd::prelude::*;

verus! {

/// One monitor as it was read from the system, or as it is to be applied.
#[derive(Debug)]
pub struct MonitorConfig {
    pub device_name: String,
    pub friendly_name: Option<String>,
    pub position_x: i32,
    pub position_y: i32,
    pub width: u32,
    pub height: u32,
    pub refresh_rate: u32,
    pub bits_per_pel: u32,
    /// Raw orientation value (0 = 0°, 1 = 90°, 2 = 180°, 3 = 270°).
    pub orientation: u32,
    pub is_primary: bool,
}

/// A full display arrangement: every monitor of one profile.
#[derive(Debug)]
pub struct Config {
    pub monitors: Vec<MonitorConfig>,
}

fn clone_optional_string(s: &Option<String>) -> (r: Option<String>)
    ensures
        r == *s,
{
    match s {
        Some(v) => Some(v.clone()),
        None => None,
    }
}

impl Clone for MonitorConfig {
    fn clone(&self) -> (r: Self)
        ensures
            r == *self,
    {
        MonitorConfig {
            device_name: self.device_name.clone(),
            friendly_name: clone_optional_string(&self.friendly_name),
            position_x: self.position_x,
            position_y: self.position_y,
            width: self.width,
            height: self.height,
            refresh_rate: self.refresh_rate,
            bits_per_pel: self.bits_per_pel,
            orientation: self.orientation,
            is_primary: self.is_primary,
        }
    }
}

/// Copies a list of monitors element by element.
pub fn clone_monitors(v: &Vec<MonitorConfig>) -> (r: Vec<MonitorConfig>)
    ensures
        r@ == v@,
{
    let mut r: Vec<MonitorConfig> = Vec::new();
    let n = v.len();
    for i in 0..n
        invariant
            n == v.len(),
            r@ == v@.subrange(0, i as int),
    {
        r.push(v[i].clone());
        assert(r@ =~= v@.subrange(0, i + 1));
    }
    assert(r@ =~= v@);
    r
}

impl View for Config {
    type V = Seq<MonitorConfig>;

    /// A configuration is the sequence of its monitors.
    open spec fn view(&self) -> Seq<MonitorConfig> {
        self.monitors@
    }
}

impl Clone for Config {
    fn clone(&self) -> (r: Self)
        ensures
            r@ == self@,
    {
        Config { monitors: clone_monitors(&self.monitors) }
    }
}

} // verus!
