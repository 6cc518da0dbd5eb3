//! State of the road drawing viewer: the file last loaded, its text, its
//! stations and the status line, updated when a file is dropped.

use vstd::prelude::*;

use crate::fields::{decimal, push_decimal};
use crate::road_section::{
    parse_road_section_csv, spec_parse_road_section, station_views, StationData, StationView,
};
use crate::sections::{decode_csv_bytes, opt_string, shift_jis_decoding};

verus! {

broadcast use vstd::string::group_string_axioms;

/// The viewer's state.
pub struct RoadDrawingApp {
    file_name: Option<String>,
    csv_content: Option<String>,
    stations: Vec<StationData>,
    status: String,
}

pub struct AppView {
    pub file_name: Option<Seq<char>>,
    pub csv_content: Option<Seq<char>>,
    pub stations: Seq<StationView>,
    pub status: Seq<char>,
}

impl View for RoadDrawingApp {
    type V = AppView;

    closed spec fn view(&self) -> AppView {
        AppView {
            file_name: opt_string(self.file_name),
            csv_content: opt_string(self.csv_content),
            stations: station_views(self.stations@),
            status: self.status@,
        }
    }
}

/// The status shown before any file is loaded.
pub open spec fn initial_status() -> Seq<char> {
    "CSVファイルをドロップしてください"@
}

/// The text of dropped bytes: UTF-8 when valid, else Shift_JIS.
pub open spec fn dropped_text(bytes: Seq<u8>) -> Seq<char> {
    if vstd::utf8::valid_utf8(bytes) {
        vstd::utf8::decode_utf8(bytes)
    } else {
        shift_jis_decoding(bytes).0
    }
}

/// The status after loading file `name` with `n` stations.
pub open spec fn loaded_status(name: Seq<char>, n: nat) -> Seq<char> {
    name + "を読み込みました（"@ + decimal(n) + "測点）"@
}

/// The status after a file that could not be parsed.
pub open spec fn error_status(e: Seq<char>) -> Seq<char> {
    "パースエラー: "@ + e
}

/// The state after dropping file `name` with `bytes` on state `s`: the file
/// and its stations on success, else only the status changes.
pub open spec fn after_drop(s: AppView, name: Seq<char>, bytes: Seq<u8>) -> AppView {
    let text = dropped_text(bytes);
    match spec_parse_road_section(text) {
        Ok(st) => AppView {
            file_name: Some(name),
            csv_content: Some(text),
            stations: st,
            status: loaded_status(name, st.len()),
        },
        Err(e) => AppView { status: error_status(e), ..s },
    }
}

impl RoadDrawingApp {
    /// The state before any file is dropped.
    pub fn new() -> (r: RoadDrawingApp)
        ensures
            r@ == (AppView {
                file_name: None,
                csv_content: None,
                stations: Seq::empty(),
                status: initial_status(),
            }),
    {
        let r = RoadDrawingApp {
            file_name: None,
            csv_content: None,
            stations: Vec::new(),
            status: String::from_str("CSVファイルをドロップしてください"),
        };
        assert(station_views(r.stations@) =~= Seq::<StationView>::empty());
        r
    }

    /// Loads a dropped file: decodes its bytes, reads its stations and
    /// reports the outcome in the status.
    pub fn handle_dropped_file(&mut self, name: &str, bytes: &[u8])
        ensures
            final(self)@ == after_drop(old(self)@, name@, bytes@),
    {
        let text = decode_csv_bytes(bytes);
        match parse_road_section_csv(text.as_str()) {
            Ok(stations) => {
                let mut status = String::from_str(name);
                status.append("を読み込みました（");
                push_decimal(&mut status, stations.len());
                status.append("測点）");
                self.status = status;
                self.stations = stations;
                self.csv_content = Some(text);
                self.file_name = Some(String::from_str(name));
            },
            Err(e) => {
                let mut status = String::from_str("パースエラー: ");
                status.append(e.as_str());
                self.status = status;
            },
        }
    }

    /// The name of the file loaded last.
    pub fn file_name(&self) -> (r: Option<&String>)
        ensures
            match r {
                Some(s) => self@.file_name == Some(s@),
                None => self@.file_name is None,
            },
    {
        self.file_name.as_ref()
    }

    /// The text of the file loaded last.
    pub fn csv_content(&self) -> (r: Option<&String>)
        ensures
            match r {
                Some(s) => self@.csv_content == Some(s@),
                None => self@.csv_content is None,
            },
    {
        self.csv_content.as_ref()
    }

    /// The stations of the file loaded last.
    pub fn stations(&self) -> (r: &Vec<StationData>)
        ensures
            station_views(r@) == self@.stations,
    {
        &self.stations
    }

    /// The status line.
    pub fn status(&self) -> (r: &str)
        ensures
            r@ == self@.status,
    {
        self.status.as_str()
    }
}

} // verus!
