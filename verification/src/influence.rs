use vstd::prelude::*;

use crate::tiles::Tile;

verus! {

/// Number of influence channels.
pub const CHANNEL_COUNT: usize = 8;

/// The channels of the influence grid.
#[derive(Debug, Clone, Copy, PartialEq, Eq, Structural)]
pub enum InfluenceChannel {
    Warmth,
    Light,
    Noise,
    Danger,
    Spiritual,
    Beauty,
    FoodAroma,
    Social,
}

/// Position of a channel's buffers in the grid.
pub open spec fn channel_index_spec(ch: InfluenceChannel) -> int {
    match ch {
        InfluenceChannel::Warmth => 0,
        InfluenceChannel::Light => 1,
        InfluenceChannel::Noise => 2,
        InfluenceChannel::Danger => 3,
        InfluenceChannel::Spiritual => 4,
        InfluenceChannel::Beauty => 5,
        InfluenceChannel::FoodAroma => 6,
        InfluenceChannel::Social => 7,
    }
}

/// Position of a channel's buffers in the grid.
pub fn channel_index(ch: InfluenceChannel) -> (i: usize)
    ensures
        i == channel_index_spec(ch),
        i < CHANNEL_COUNT,
{
    match ch {
        InfluenceChannel::Warmth => 0,
        InfluenceChannel::Light => 1,
        InfluenceChannel::Noise => 2,
        InfluenceChannel::Danger => 3,
        InfluenceChannel::Spiritual => 4,
        InfluenceChannel::Beauty => 5,
        InfluenceChannel::FoodAroma => 6,
        InfluenceChannel::Social => 7,
    }
}


/// An inclusive rectangle of tiles whose influence must be recomputed.
#[derive(Debug, Clone, Copy, PartialEq, Eq, Structural)]
pub struct DirtyRegion {
    pub min_x: u32,
    pub min_y: u32,
    pub max_x: u32,
    pub max_y: u32,
}

/// A double-buffered influence grid: for each channel a current buffer
/// that systems read, a pending buffer that propagation writes, and the
/// regions marked dirty since the last update. Buffers are row-major,
/// `width * height` cells each.
#[derive(Debug)]
pub struct InfluenceGrid {
    pub width: u32,
    pub height: u32,
    pub current: Vec<Vec<u8>>,
    pub pending: Vec<Vec<u8>>,
    pub dirty_regions: Vec<Vec<DirtyRegion>>,
}

/// A buffer of `n` zeros.
pub open spec fn zero_buffer(n: nat) -> Seq<u8> {
    Seq::new(n, |i: int| 0u8)
}

impl InfluenceGrid {
    /// Every channel has both buffers, of `width * height` cells, and a
    /// dirty list.
    pub open spec fn wf(&self) -> bool {
        &&& self.width * self.height <= usize::MAX
        &&& self.current@.len() == CHANNEL_COUNT
        &&& self.pending@.len() == CHANNEL_COUNT
        &&& self.dirty_regions@.len() == CHANNEL_COUNT
        &&& forall|i: int| 0 <= i < CHANNEL_COUNT ==> (#[trigger] self.current@[i])@.len() == self.width * self.height
        &&& forall|i: int| 0 <= i < CHANNEL_COUNT ==> (#[trigger] self.pending@[i])@.len() == self.width * self.height
    }

    /// The current buffer of a channel.
    pub open spec fn cur(&self, ch: InfluenceChannel) -> Seq<u8> {
        self.current@[channel_index_spec(ch)]@
    }

    /// The pending buffer of a channel.
    pub open spec fn pend(&self, ch: InfluenceChannel) -> Seq<u8> {
        self.pending@[channel_index_spec(ch)]@
    }

    /// The dirty regions of a channel.
    pub open spec fn dirty(&self, ch: InfluenceChannel) -> Seq<DirtyRegion> {
        self.dirty_regions@[channel_index_spec(ch)]@
    }

    /// Row-major cell index of an in-bounds tile.
    pub open spec fn cell(&self, x: u32, y: u32) -> int {
        y * self.width + x
    }

    /// A zeroed grid of `width` by `height` tiles with nothing dirty.
    pub fn new(width: u32, height: u32) -> (g: InfluenceGrid)
        requires
            width * height <= usize::MAX,
        ensures
            g.wf(),
            g.width == width,
            g.height == height,
            forall|i: int| 0 <= i < CHANNEL_COUNT ==> (#[trigger] g.current@[i])@ == zero_buffer((width * height) as nat),
            forall|i: int| 0 <= i < CHANNEL_COUNT ==> (#[trigger] g.pending@[i])@ == zero_buffer((width * height) as nat),
            forall|i: int| 0 <= i < CHANNEL_COUNT ==> (#[trigger] g.dirty_regions@[i])@.len() == 0,
    {
        let n = (width as u64 * height as u64) as usize;
        let mut current: Vec<Vec<u8>> = Vec::new();
        let mut pending: Vec<Vec<u8>> = Vec::new();
        let mut dirty_regions: Vec<Vec<DirtyRegion>> = Vec::new();
        let mut c: usize = 0;
        while c < CHANNEL_COUNT
            invariant
                0 <= c <= CHANNEL_COUNT,
                n == width * height,
                current@.len() == c,
                pending@.len() == c,
                dirty_regions@.len() == c,
                forall|i: int| 0 <= i < c ==> (#[trigger] current@[i])@ == zero_buffer(n as nat),
                forall|i: int| 0 <= i < c ==> (#[trigger] pending@[i])@ == zero_buffer(n as nat),
                forall|i: int| 0 <= i < c ==> (#[trigger] dirty_regions@[i])@.len() == 0,
            decreases CHANNEL_COUNT - c,
        {
            current.push(zeros(n));
            pending.push(zeros(n));
            dirty_regions.push(Vec::new());
            c = c + 1;
        }
        InfluenceGrid { width, height, current, pending, dirty_regions }
    }

    /// The current value of a channel at an in-bounds tile.
    pub fn sample(&self, x: u32, y: u32, ch: InfluenceChannel) -> (v: u8)
        requires
            self.wf(),
            x < self.width,
            y < self.height,
        ensures
            v == self.cur(ch)[self.cell(x, y)],
    {
        let i = channel_index(ch);
        let idx = cell_index(x, y, self.width, self.height);
        assert(self.current@[i as int]@.len() == self.width * self.height);
        self.current[i][idx]
    }

    /// Zero the pending buffer of a channel.
    pub fn clear_pending(&mut self, ch: InfluenceChannel)
        requires
            old(self).wf(),
        ensures
            final(self).wf(),
            final(self).width == old(self).width && final(self).height == old(self).height,
            final(self).current@ == old(self).current@,
            final(self).dirty_regions@ == old(self).dirty_regions@,
            final(self).pending@ == old(self).pending@.update(channel_index_spec(ch), final(self).pending@[channel_index_spec(ch)]),
            final(self).pend(ch) == zero_buffer(old(self).pend(ch).len()),
    {
        let i = channel_index(ch);
        let n = self.pending[i].len();
        self.pending.set(i, zeros(n));
    }

    /// Copy the current buffer of a channel into its pending buffer, so that
    /// the next swap keeps the channel as it is.
    pub fn persist(&mut self, ch: InfluenceChannel)
        requires
            old(self).wf(),
        ensures
            final(self).wf(),
            final(self).width == old(self).width && final(self).height == old(self).height,
            final(self).current@ == old(self).current@,
            final(self).dirty_regions@ == old(self).dirty_regions@,
            final(self).pending@ == old(self).pending@.update(channel_index_spec(ch), final(self).pending@[channel_index_spec(ch)]),
            final(self).pend(ch) == old(self).cur(ch),
    {
        let i = channel_index(ch);
        let copy = copy_buffer(&self.current[i]);
        self.pending.set(i, copy);
    }

    /// Exchange the current and pending buffers of every channel.
    pub fn swap(&mut self)
        requires
            old(self).wf(),
        ensures
            final(self).wf(),
            final(self).width == old(self).width && final(self).height == old(self).height,
            final(self).current@ == old(self).pending@,
            final(self).pending@ == old(self).current@,
            final(self).dirty_regions@ == old(self).dirty_regions@,
    {
        std::mem::swap(&mut self.current, &mut self.pending);
    }

    /// Append a dirty region to a channel's list.
    pub fn mark_dirty(&mut self, ch: InfluenceChannel, region: DirtyRegion)
        requires
            old(self).wf(),
        ensures
            final(self).wf(),
            final(self).width == old(self).width && final(self).height == old(self).height,
            final(self).current@ == old(self).current@,
            final(self).pending@ == old(self).pending@,
            final(self).dirty_regions@ == old(self).dirty_regions@.update(channel_index_spec(ch), final(self).dirty_regions@[channel_index_spec(ch)]),
            final(self).dirty(ch) == old(self).dirty(ch).push(region),
    {
        let i = channel_index(ch);
        let mut list: Vec<DirtyRegion> = Vec::new();
        std::mem::swap(&mut list, &mut self.dirty_regions[i]);
        list.push(region);
        self.dirty_regions.set(i, list);
    }

    /// Take a channel's dirty regions, leaving its list empty.
    pub fn take_dirty(&mut self, ch: InfluenceChannel) -> (regions: Vec<DirtyRegion>)
        requires
            old(self).wf(),
        ensures
            final(self).wf(),
            final(self).width == old(self).width && final(self).height == old(self).height,
            final(self).current@ == old(self).current@,
            final(self).pending@ == old(self).pending@,
            final(self).dirty_regions@ == old(self).dirty_regions@.update(channel_index_spec(ch), final(self).dirty_regions@[channel_index_spec(ch)]),
            final(self).dirty(ch).len() == 0,
            regions@ == old(self).dirty(ch),
    {
        let i = channel_index(ch);
        let mut list: Vec<DirtyRegion> = Vec::new();
        std::mem::swap(&mut list, &mut self.dirty_regions[i]);
        list
    }
}

/// Row-major cell index of an in-bounds tile.
pub fn cell_index(x: u32, y: u32, width: u32, height: u32) -> (i: usize)
    requires
        x < width,
        y < height,
        width * height <= usize::MAX,
    ensures
        i == y * width + x,
        i < width * height,
{
    proof {
        assert(y * width + x < width * height) by (nonlinear_arith)
            requires x < width, y < height;
    }
    (y as u64 * width as u64 + x as u64) as usize
}

/// A buffer of `n` zeros.
pub fn zeros(n: usize) -> (v: Vec<u8>)
    ensures
        v@ == zero_buffer(n as nat),
{
    let mut v: Vec<u8> = Vec::new();
    let mut i: usize = 0;
    while i < n
        invariant
            0 <= i <= n,
            v@ == zero_buffer(i as nat),
        decreases n - i,
    {
        v.push(0);
        i = i + 1;
        proof {
            assert(v@ =~= zero_buffer(i as nat));
        }
    }
    v
}

/// A copy of a buffer.
pub fn copy_buffer(b: &Vec<u8>) -> (c: Vec<u8>)
    ensures
        c@ == b@,
{
    let mut c: Vec<u8> = Vec::new();
    let mut i: usize = 0;
    while i < b.len()
        invariant
            0 <= i <= b@.len(),
            c@ == b@.subrange(0, i as int),
        decreases b@.len() - i,
    {
        c.push(b[i]);
        i = i + 1;
        proof {
            assert(c@ =~= b@.subrange(0, i as int));
        }
    }
    proof {
        assert(b@.subrange(0, b@.len() as int) =~= b@);
    }
    c
}

/// The centre tile of a region.
pub open spec fn region_centre(r: DirtyRegion) -> Tile {
    (((r.min_x + r.max_x) / 2) as u32, ((r.min_y + r.max_y) / 2) as u32)
}

} // verus!
