//! The fixed-size records of the reverse index.
//!
//! Coordinates and areas are bit patterns (binary32). Fields stand at their
//! natural alignment, in little-endian order.
use vstd::prelude::*;
use crate::bytes::{lemma_record_bounds, read_u16, read_u32, record_count, u16_at, u32_at};

verus! {

/// The address is keyed by a place, not by a street.
pub const FLAG_ADDR_PLACE: u8 = 0x01;

/// The house number is a house name.
pub const FLAG_IS_HOUSENAME: u8 = 0x02;

/// A street: a run of nodes and its name.
#[derive(Clone, Copy, Debug, PartialEq, Eq, Structural)]
pub struct WayHeader {
    pub node_offset: u32,
    pub node_count: u8,
    pub name_id: u32,
}

/// Bytes of a street way record.
pub const WAY_HEADER_SIZE: usize = 12;

/// The street way record at `off`.
pub open spec fn way_header_at(s: Seq<u8>, off: int) -> WayHeader {
    WayHeader {
        node_offset: u32_at(s, off),
        node_count: s[off + 4],
        name_id: u32_at(s, off + 8),
    }
}

/// The street way record with the given id; none beyond the last.
pub open spec fn way_header_of(s: Seq<u8>, id: int) -> Option<WayHeader> {
    if 0 <= id < record_count(s, 12) {
        Some(way_header_at(s, id * 12))
    } else {
        None
    }
}

/// Reads the street way record with the given id.
pub fn read_way_header(s: &[u8], id: u32) -> (r: Option<WayHeader>)
    ensures
        r == way_header_of(s@, id as int),
{
    if (id as usize) < s.len() / WAY_HEADER_SIZE {
        proof {
            lemma_record_bounds(s@.len() as int, 12, id as int);
        }
        assert(id * 12 + 12 <= s.len());
        let off: usize = id as usize * WAY_HEADER_SIZE;
        Some(
            WayHeader {
                node_offset: read_u32(s, off),
                node_count: s[off + 4],
                name_id: read_u32(s, off + 8),
            },
        )
    } else {
        None
    }
}

/// An address point. With [`FLAG_ADDR_PLACE`] in `flags`, `street_or_place_id`
/// names a place and the address has no street. Zero ids stand for "none". The
/// record has no postcode.
#[derive(Clone, Copy, Debug, PartialEq, Eq, Structural)]
pub struct AddrPoint {
    pub lat: u32,
    pub lng: u32,
    pub housenumber_id: u32,
    pub street_or_place_id: u32,
    pub unit_id: u32,
    pub floor_id: u32,
    pub parent_place_id: u32,
    pub flags: u8,
}

/// Bytes of an address record.
pub const ADDR_POINT_SIZE: usize = 32;

/// The address record at `off`.
pub open spec fn addr_point_at(s: Seq<u8>, off: int) -> AddrPoint {
    AddrPoint {
        lat: u32_at(s, off),
        lng: u32_at(s, off + 4),
        housenumber_id: u32_at(s, off + 8),
        street_or_place_id: u32_at(s, off + 12),
        unit_id: u32_at(s, off + 16),
        floor_id: u32_at(s, off + 20),
        parent_place_id: u32_at(s, off + 24),
        flags: s[off + 28],
    }
}

/// The address record with the given id; none beyond the last.
pub open spec fn addr_point_of(s: Seq<u8>, id: int) -> Option<AddrPoint> {
    if 0 <= id < record_count(s, 32) {
        Some(addr_point_at(s, id * 32))
    } else {
        None
    }
}

/// Reads the address record with the given id.
pub fn read_addr_point(s: &[u8], id: u32) -> (r: Option<AddrPoint>)
    ensures
        r == addr_point_of(s@, id as int),
{
    if (id as usize) < s.len() / ADDR_POINT_SIZE {
        proof {
            lemma_record_bounds(s@.len() as int, 32, id as int);
        }
        assert(id * 32 + 32 <= s.len());
        let off: usize = id as usize * ADDR_POINT_SIZE;
        Some(
            AddrPoint {
                lat: read_u32(s, off),
                lng: read_u32(s, off + 4),
                housenumber_id: read_u32(s, off + 8),
                street_or_place_id: read_u32(s, off + 12),
                unit_id: read_u32(s, off + 16),
                floor_id: read_u32(s, off + 20),
                parent_place_id: read_u32(s, off + 24),
                flags: s[off + 28],
            },
        )
    } else {
        None
    }
}

/// A way along which house numbers are interpolated.
#[derive(Clone, Copy, Debug, PartialEq, Eq, Structural)]
pub struct InterpWay {
    pub node_offset: u32,
    pub node_count: u8,
    pub street_id: u32,
    pub start_number: u32,
    pub end_number: u32,
    pub interpolation: u8,
}

/// Bytes of an interpolation way record.
pub const INTERP_WAY_SIZE: usize = 24;

/// The interpolation way record at `off`.
pub open spec fn interp_way_at(s: Seq<u8>, off: int) -> InterpWay {
    InterpWay {
        node_offset: u32_at(s, off),
        node_count: s[off + 4],
        street_id: u32_at(s, off + 8),
        start_number: u32_at(s, off + 12),
        end_number: u32_at(s, off + 16),
        interpolation: s[off + 20],
    }
}

/// The interpolation way record with the given id; none beyond the last.
pub open spec fn interp_way_of(s: Seq<u8>, id: int) -> Option<InterpWay> {
    if 0 <= id < record_count(s, 24) {
        Some(interp_way_at(s, id * 24))
    } else {
        None
    }
}

/// Reads the interpolation way record with the given id.
pub fn read_interp_way(s: &[u8], id: u32) -> (r: Option<InterpWay>)
    ensures
        r == interp_way_of(s@, id as int),
{
    if (id as usize) < s.len() / INTERP_WAY_SIZE {
        proof {
            lemma_record_bounds(s@.len() as int, 24, id as int);
        }
        assert(id * 24 + 24 <= s.len());
        let off: usize = id as usize * INTERP_WAY_SIZE;
        Some(
            InterpWay {
                node_offset: read_u32(s, off),
                node_count: s[off + 4],
                street_id: read_u32(s, off + 8),
                start_number: read_u32(s, off + 12),
                end_number: read_u32(s, off + 16),
                interpolation: s[off + 20],
            },
        )
    } else {
        None
    }
}

/// An administrative area. `country_code` packs two ASCII letters, the first in
/// the high byte; zero stands for "none".
#[derive(Clone, Copy, Debug, PartialEq, Eq, Structural)]
pub struct AdminPolygon {
    pub vertex_offset: u32,
    pub vertex_count: u16,
    pub name_id: u32,
    pub admin_level: u8,
    pub area: u32,
    pub country_code: u16,
}

/// Bytes of an administrative polygon record.
pub const ADMIN_POLYGON_SIZE: usize = 24;

/// The administrative polygon record at `off`.
pub open spec fn admin_polygon_at(s: Seq<u8>, off: int) -> AdminPolygon {
    AdminPolygon {
        vertex_offset: u32_at(s, off),
        vertex_count: u16_at(s, off + 4),
        name_id: u32_at(s, off + 8),
        admin_level: s[off + 12],
        area: u32_at(s, off + 16),
        country_code: u16_at(s, off + 20),
    }
}

/// The administrative polygon record with the given id; none beyond the last.
pub open spec fn admin_polygon_of(s: Seq<u8>, id: int) -> Option<AdminPolygon> {
    if 0 <= id < record_count(s, 24) {
        Some(admin_polygon_at(s, id * 24))
    } else {
        None
    }
}

/// Reads the administrative polygon record with the given id.
pub fn read_admin_polygon(s: &[u8], id: u32) -> (r: Option<AdminPolygon>)
    ensures
        r == admin_polygon_of(s@, id as int),
{
    if (id as usize) < s.len() / ADMIN_POLYGON_SIZE {
        proof {
            lemma_record_bounds(s@.len() as int, 24, id as int);
        }
        assert(id * 24 + 24 <= s.len());
        let off: usize = id as usize * ADMIN_POLYGON_SIZE;
        Some(
            AdminPolygon {
                vertex_offset: read_u32(s, off),
                vertex_count: read_u16(s, off + 4),
                name_id: read_u32(s, off + 8),
                admin_level: s[off + 12],
                area: read_u32(s, off + 16),
                country_code: read_u16(s, off + 20),
            },
        )
    } else {
        None
    }
}

/// A node of a way or a vertex of a polygon.
#[derive(Clone, Copy, Debug, PartialEq, Eq, Structural)]
pub struct NodeCoord {
    pub lat: u32,
    pub lng: u32,
}

/// Bytes of a node record.
pub const NODE_COORD_SIZE: usize = 8;

/// The node record at `off`.
pub open spec fn node_coord_at(s: Seq<u8>, off: int) -> NodeCoord {
    NodeCoord {
        lat: u32_at(s, off),
        lng: u32_at(s, off + 4),
    }
}

/// The node record with the given id; none beyond the last.
pub open spec fn node_coord_of(s: Seq<u8>, id: int) -> Option<NodeCoord> {
    if 0 <= id < record_count(s, 8) {
        Some(node_coord_at(s, id * 8))
    } else {
        None
    }
}

/// Reads the node record with the given id.
pub fn read_node_coord(s: &[u8], id: usize) -> (r: Option<NodeCoord>)
    ensures
        r == node_coord_of(s@, id as int),
{
    if id < s.len() / NODE_COORD_SIZE {
        proof {
            lemma_record_bounds(s@.len() as int, 8, id as int);
        }
        assert(id * 8 + 8 <= s.len());
        let off: usize = id * NODE_COORD_SIZE;
        Some(
            NodeCoord {
                lat: read_u32(s, off),
                lng: read_u32(s, off + 4),
            },
        )
    } else {
        None
    }
}

/// A named place. A lower rank is a more prominent place.
#[derive(Clone, Copy, Debug, PartialEq, Eq, Structural)]
pub struct PlacePoint {
    pub lat: u32,
    pub lng: u32,
    pub name_id: u32,
    pub rank: u8,
}

/// Bytes of a place record.
pub const PLACE_POINT_SIZE: usize = 16;

/// The place record at `off`.
pub open spec fn place_point_at(s: Seq<u8>, off: int) -> PlacePoint {
    PlacePoint {
        lat: u32_at(s, off),
        lng: u32_at(s, off + 4),
        name_id: u32_at(s, off + 8),
        rank: s[off + 12],
    }
}

/// The place record with the given id; none beyond the last.
pub open spec fn place_point_of(s: Seq<u8>, id: int) -> Option<PlacePoint> {
    if 0 <= id < record_count(s, 16) {
        Some(place_point_at(s, id * 16))
    } else {
        None
    }
}

/// Reads the place record with the given id.
pub fn read_place_point(s: &[u8], id: u32) -> (r: Option<PlacePoint>)
    ensures
        r == place_point_of(s@, id as int),
{
    if (id as usize) < s.len() / PLACE_POINT_SIZE {
        proof {
            lemma_record_bounds(s@.len() as int, 16, id as int);
        }
        assert(id * 16 + 16 <= s.len());
        let off: usize = id as usize * PLACE_POINT_SIZE;
        Some(
            PlacePoint {
                lat: read_u32(s, off),
                lng: read_u32(s, off + 4),
                name_id: read_u32(s, off + 8),
                rank: s[off + 12],
            },
        )
    } else {
        None
    }
}

/// A point of interest. A lower rank is a more prominent one.
#[derive(Clone, Copy, Debug, PartialEq, Eq, Structural)]
pub struct PoiPoint {
    pub lat: u32,
    pub lng: u32,
    pub name_id: u32,
    pub category_id: u32,
    pub rank: u8,
    pub parent_place_id: u32,
}

/// Bytes of a point of interest record.
pub const POI_POINT_SIZE: usize = 24;

/// The point of interest record at `off`.
pub open spec fn poi_point_at(s: Seq<u8>, off: int) -> PoiPoint {
    PoiPoint {
        lat: u32_at(s, off),
        lng: u32_at(s, off + 4),
        name_id: u32_at(s, off + 8),
        category_id: u32_at(s, off + 12),
        rank: s[off + 16],
        parent_place_id: u32_at(s, off + 20),
    }
}

/// The point of interest record with the given id; none beyond the last.
pub open spec fn poi_point_of(s: Seq<u8>, id: int) -> Option<PoiPoint> {
    if 0 <= id < record_count(s, 24) {
        Some(poi_point_at(s, id * 24))
    } else {
        None
    }
}

/// Reads the point of interest record with the given id.
pub fn read_poi_point(s: &[u8], id: u32) -> (r: Option<PoiPoint>)
    ensures
        r == poi_point_of(s@, id as int),
{
    if (id as usize) < s.len() / POI_POINT_SIZE {
        proof {
            lemma_record_bounds(s@.len() as int, 24, id as int);
        }
        assert(id * 24 + 24 <= s.len());
        let off: usize = id as usize * POI_POINT_SIZE;
        Some(
            PoiPoint {
                lat: read_u32(s, off),
                lng: read_u32(s, off + 4),
                name_id: read_u32(s, off + 8),
                category_id: read_u32(s, off + 12),
                rank: s[off + 16],
                parent_place_id: read_u32(s, off + 20),
            },
        )
    } else {
        None
    }
}

} // verus!
