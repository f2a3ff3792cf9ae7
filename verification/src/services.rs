//! The file layout used for notes and attachments: where each file goes,
//! relative to the data directory. The directory creation, reads and
//! writes themselves are I/O and live outside the library.

use vstd::prelude::*;
use vstd::string::StringExecFns;

use crate::models::dec_digits;
use crate::models::u64_dec_str;
use crate::models::TimeBlock;

verus! {

/// Decimal rendering padded with zeros to at least four digits.
pub open spec fn four_digit(n: int) -> Seq<char> {
    if n < 10 {
        seq!['0', '0', '0'] + dec_digits(n)
    } else if n < 100 {
        seq!['0', '0'] + dec_digits(n)
    } else if n < 1000 {
        seq!['0'] + dec_digits(n)
    } else {
        dec_digits(n)
    }
}

/// Four-digit zero-padded rendering of `n`, matching `four_digit`.
pub fn four_digit_str(n: u64) -> (r: String)
    ensures
        r@ == four_digit(n as int),
{
    let mut s = if n < 10 {
        String::from_str("000")
    } else if n < 100 {
        String::from_str("00")
    } else if n < 1000 {
        String::from_str("0")
    } else {
        String::new()
    };
    let digits = u64_dec_str(n);
    s.append(digits.as_str());
    proof {
        reveal_strlit("000");
        reveal_strlit("00");
        reveal_strlit("0");
        assert(s@ =~= four_digit(n as int));
    }
    s
}

/// The notes file name of a time block: its start minutes four-digit
/// padded, then its identifier, or `new` for an unsaved block.
pub open spec fn notes_file_name(start_minutes: int, id: Option<i64>) -> Seq<char> {
    match id {
        Some(i) => four_digit(start_minutes) + seq!['-'] + dec_digits(i as int) + ".md"@,
        None => four_digit(start_minutes) + "-new.md"@,
    }
}

/// The paths the application's files live under, relative to one data
/// directory.
pub struct FileService {
    data_dir: String,
    notes_dir: String,
    attachments_dir: String,
}

impl FileService {
    /// The root data directory.
    pub closed spec fn data_dir_view(&self) -> Seq<char> {
        self.data_dir@
    }

    /// The notes directory.
    pub closed spec fn notes_dir_view(&self) -> Seq<char> {
        self.notes_dir@
    }

    /// The attachments directory.
    pub closed spec fn attachments_dir_view(&self) -> Seq<char> {
        self.attachments_dir@
    }

    /// The layout under one data directory: notes and attachments in
    /// their own subdirectories. Creating the directories is the
    /// caller's, not the layout's, business.
    pub fn new(data_dir: String) -> (r: FileService)
        ensures
            r.data_dir_view() == data_dir@,
            r.notes_dir_view() == data_dir@ + "/notes"@,
            r.attachments_dir_view() == data_dir@ + "/attachments"@,
    {
        let mut notes_dir = data_dir.clone();
        notes_dir.append("/notes");
        let mut attachments_dir = data_dir.clone();
        attachments_dir.append("/attachments");
        FileService { data_dir, notes_dir, attachments_dir }
    }

    /// The root data directory, as handed to the constructor.
    pub fn get_data_dir(&self) -> (r: &String)
        ensures
            r@ == self.data_dir_view(),
    {
        &self.data_dir
    }

    /// Where a block's notes live, relative to the data directory:
    /// `notes/<date>/<start>-<id>.md`, with `new` for an unsaved block.
    pub fn notes_relative_path(&self, block: &TimeBlock) -> (r: String)
        requires
            0 <= block.start_minutes,
            block.id matches Some(i) ==> i >= 0,
        ensures
            r@ == "notes/"@ + block.date@ + seq!['/'] + notes_file_name(
                block.start_minutes as int,
                block.id,
            ),
    {
        let mut s = String::from_str("notes/");
        s.append(block.date.as_str());
        s.append("/");
        let minutes = four_digit_str(block.start_minutes as u64);
        s.append(minutes.as_str());
        match block.id {
            Some(i) => {
                s.append("-");
                let id_digits = u64_dec_str(i as u64);
                s.append(id_digits.as_str());
                s.append(".md");
            },
            None => {
                s.append("-new.md");
            },
        }
        proof {
            reveal_strlit("/");
            reveal_strlit("-");
            assert(s@ =~= "notes/"@ + block.date@ + seq!['/'] + notes_file_name(
                block.start_minutes as int,
                block.id,
            ));
        }
        s
    }

    /// Where an attachment lives, relative to the data directory:
    /// `attachments/<date>/<block id>_<file name>`.
    pub fn attachment_relative_path(&self, time_block_id: i64, date: &str, filename: &str) -> (r:
        String)
        requires
            time_block_id >= 0,
        ensures
            r@ == "attachments/"@ + date@ + seq!['/'] + dec_digits(time_block_id as int)
                + seq!['_'] + filename@,
    {
        let mut s = String::from_str("attachments/");
        s.append(date);
        s.append("/");
        let id_digits = u64_dec_str(time_block_id as u64);
        s.append(id_digits.as_str());
        s.append("_");
        s.append(filename);
        proof {
            reveal_strlit("/");
            reveal_strlit("_");
            assert(s@ =~= "attachments/"@ + date@ + seq!['/'] + dec_digits(time_block_id as int)
                + seq!['_'] + filename@);
        }
        s
    }
}

} // verus!
