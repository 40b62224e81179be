//! What an flrig server is told, and what its answers mean. Levels and meters are
//! in millionths.
use crate::cat::config::Mode;
use crate::cat::flrig;
use crate::cat::flrig::{FlrigView, ParamView, Sent};
use crate::cat::http;
use crate::cat::session::CatUpdate;
use crate::cat::xml;
use crate::cat::xml::NodeView;
use crate::decimal;
use crate::floats;
use crate::text;
use vstd::prelude::*;

verus! {

broadcast use vstd::seq::group_seq_axioms;

/// A mode goes by each of these names, in any case and with any space around it,
/// and by no other.
pub proof fn law_the_names_of_the_modes(name: Seq<char>)
    ensures
        ({
            let s = text::uppers(text::trim(name));
            &&& flrig::mode_named(name) == Some(Mode::Lsb) <==> (s == "LSB"@)
            &&& flrig::mode_named(name) == Some(Mode::Usb) <==> (s == "USB"@)
            &&& flrig::mode_named(name) == Some(Mode::Cw) <==> (s == "CW"@ || s == "CW-R"@
                || s == "CWR"@ || s == "CW-L"@ || s == "CW-U"@)
            &&& flrig::mode_named(name) == Some(Mode::Am) <==> (s == "AM"@ || s == "AM-N"@
                || s == "AMN"@)
            &&& flrig::mode_named(name) == Some(Mode::Dsb) <==> (s == "DSB"@)
            &&& flrig::mode_named(name) == Some(Mode::Nfm) <==> (s == "FM"@ || s == "FM-N"@
                || s == "FMN"@ || s == "NFM"@)
            &&& flrig::mode_named(name) == Some(Mode::Wfm) <==> (s == "WFM"@ || s == "FM-W"@
                || s == "FMW"@)
            &&& flrig::mode_named(name) == Some(Mode::Digu) <==> (s == "DATA"@ || s == "DATA-U"@
                || s == "DIGU"@ || s == "PKT-USB"@ || s == "PKTUSB"@ || s == "PKT-U"@
                || s == "USB-D"@ || s == "DIG"@ || s == "PKT"@)
            &&& flrig::mode_named(name) == Some(Mode::Digl) <==> (s == "DATA-R"@ || s == "DATA-L"@
                || s == "DIGL"@ || s == "PKT-LSB"@ || s == "PKTLSB"@ || s == "PKT-L"@
                || s == "LSB-D"@)
        }),
{
    reveal_strlit("LSB");
    assert("LSB"@.len() == 3 && "LSB"@[0] == 'L' && "LSB"@[1] == 'S' && "LSB"@[2] == 'B');
    reveal_strlit("USB");
    assert("USB"@.len() == 3 && "USB"@[0] == 'U' && "USB"@[1] == 'S' && "USB"@[2] == 'B');
    reveal_strlit("CW");
    assert("CW"@.len() == 2 && "CW"@[0] == 'C' && "CW"@[1] == 'W');
    reveal_strlit("CW-R");
    assert("CW-R"@.len() == 4 && "CW-R"@[0] == 'C' && "CW-R"@[1] == 'W' && "CW-R"@[2] == '-'
        && "CW-R"@[3] == 'R');
    reveal_strlit("CWR");
    assert("CWR"@.len() == 3 && "CWR"@[0] == 'C' && "CWR"@[1] == 'W' && "CWR"@[2] == 'R');
    reveal_strlit("CW-L");
    assert("CW-L"@.len() == 4 && "CW-L"@[0] == 'C' && "CW-L"@[1] == 'W' && "CW-L"@[2] == '-'
        && "CW-L"@[3] == 'L');
    reveal_strlit("CW-U");
    assert("CW-U"@.len() == 4 && "CW-U"@[0] == 'C' && "CW-U"@[1] == 'W' && "CW-U"@[2] == '-'
        && "CW-U"@[3] == 'U');
    reveal_strlit("AM");
    assert("AM"@.len() == 2 && "AM"@[0] == 'A' && "AM"@[1] == 'M');
    reveal_strlit("AM-N");
    assert("AM-N"@.len() == 4 && "AM-N"@[0] == 'A' && "AM-N"@[1] == 'M' && "AM-N"@[2] == '-'
        && "AM-N"@[3] == 'N');
    reveal_strlit("AMN");
    assert("AMN"@.len() == 3 && "AMN"@[0] == 'A' && "AMN"@[1] == 'M' && "AMN"@[2] == 'N');
    reveal_strlit("DSB");
    assert("DSB"@.len() == 3 && "DSB"@[0] == 'D' && "DSB"@[1] == 'S' && "DSB"@[2] == 'B');
    reveal_strlit("FM");
    assert("FM"@.len() == 2 && "FM"@[0] == 'F' && "FM"@[1] == 'M');
    reveal_strlit("FM-N");
    assert("FM-N"@.len() == 4 && "FM-N"@[0] == 'F' && "FM-N"@[1] == 'M' && "FM-N"@[2] == '-'
        && "FM-N"@[3] == 'N');
    reveal_strlit("FMN");
    assert("FMN"@.len() == 3 && "FMN"@[0] == 'F' && "FMN"@[1] == 'M' && "FMN"@[2] == 'N');
    reveal_strlit("NFM");
    assert("NFM"@.len() == 3 && "NFM"@[0] == 'N' && "NFM"@[1] == 'F' && "NFM"@[2] == 'M');
    reveal_strlit("WFM");
    assert("WFM"@.len() == 3 && "WFM"@[0] == 'W' && "WFM"@[1] == 'F' && "WFM"@[2] == 'M');
    reveal_strlit("FM-W");
    assert("FM-W"@.len() == 4 && "FM-W"@[0] == 'F' && "FM-W"@[1] == 'M' && "FM-W"@[2] == '-'
        && "FM-W"@[3] == 'W');
    reveal_strlit("FMW");
    assert("FMW"@.len() == 3 && "FMW"@[0] == 'F' && "FMW"@[1] == 'M' && "FMW"@[2] == 'W');
    reveal_strlit("DATA");
    assert("DATA"@.len() == 4 && "DATA"@[0] == 'D' && "DATA"@[1] == 'A' && "DATA"@[2] == 'T'
        && "DATA"@[3] == 'A');
    reveal_strlit("DATA-U");
    assert("DATA-U"@.len() == 6 && "DATA-U"@[0] == 'D' && "DATA-U"@[1] == 'A'
        && "DATA-U"@[2] == 'T' && "DATA-U"@[3] == 'A' && "DATA-U"@[4] == '-'
        && "DATA-U"@[5] == 'U');
    reveal_strlit("DIGU");
    assert("DIGU"@.len() == 4 && "DIGU"@[0] == 'D' && "DIGU"@[1] == 'I' && "DIGU"@[2] == 'G'
        && "DIGU"@[3] == 'U');
    reveal_strlit("PKT-USB");
    assert("PKT-USB"@.len() == 7 && "PKT-USB"@[0] == 'P' && "PKT-USB"@[1] == 'K'
        && "PKT-USB"@[2] == 'T' && "PKT-USB"@[3] == '-' && "PKT-USB"@[4] == 'U'
        && "PKT-USB"@[5] == 'S' && "PKT-USB"@[6] == 'B');
    reveal_strlit("PKTUSB");
    assert("PKTUSB"@.len() == 6 && "PKTUSB"@[0] == 'P' && "PKTUSB"@[1] == 'K'
        && "PKTUSB"@[2] == 'T' && "PKTUSB"@[3] == 'U' && "PKTUSB"@[4] == 'S'
        && "PKTUSB"@[5] == 'B');
    reveal_strlit("PKT-U");
    assert("PKT-U"@.len() == 5 && "PKT-U"@[0] == 'P' && "PKT-U"@[1] == 'K' && "PKT-U"@[2] == 'T'
        && "PKT-U"@[3] == '-' && "PKT-U"@[4] == 'U');
    reveal_strlit("USB-D");
    assert("USB-D"@.len() == 5 && "USB-D"@[0] == 'U' && "USB-D"@[1] == 'S' && "USB-D"@[2] == 'B'
        && "USB-D"@[3] == '-' && "USB-D"@[4] == 'D');
    reveal_strlit("DIG");
    assert("DIG"@.len() == 3 && "DIG"@[0] == 'D' && "DIG"@[1] == 'I' && "DIG"@[2] == 'G');
    reveal_strlit("PKT");
    assert("PKT"@.len() == 3 && "PKT"@[0] == 'P' && "PKT"@[1] == 'K' && "PKT"@[2] == 'T');
    reveal_strlit("DATA-R");
    assert("DATA-R"@.len() == 6 && "DATA-R"@[0] == 'D' && "DATA-R"@[1] == 'A'
        && "DATA-R"@[2] == 'T' && "DATA-R"@[3] == 'A' && "DATA-R"@[4] == '-'
        && "DATA-R"@[5] == 'R');
    reveal_strlit("DATA-L");
    assert("DATA-L"@.len() == 6 && "DATA-L"@[0] == 'D' && "DATA-L"@[1] == 'A'
        && "DATA-L"@[2] == 'T' && "DATA-L"@[3] == 'A' && "DATA-L"@[4] == '-'
        && "DATA-L"@[5] == 'L');
    reveal_strlit("DIGL");
    assert("DIGL"@.len() == 4 && "DIGL"@[0] == 'D' && "DIGL"@[1] == 'I' && "DIGL"@[2] == 'G'
        && "DIGL"@[3] == 'L');
    reveal_strlit("PKT-LSB");
    assert("PKT-LSB"@.len() == 7 && "PKT-LSB"@[0] == 'P' && "PKT-LSB"@[1] == 'K'
        && "PKT-LSB"@[2] == 'T' && "PKT-LSB"@[3] == '-' && "PKT-LSB"@[4] == 'L'
        && "PKT-LSB"@[5] == 'S' && "PKT-LSB"@[6] == 'B');
    reveal_strlit("PKTLSB");
    assert("PKTLSB"@.len() == 6 && "PKTLSB"@[0] == 'P' && "PKTLSB"@[1] == 'K'
        && "PKTLSB"@[2] == 'T' && "PKTLSB"@[3] == 'L' && "PKTLSB"@[4] == 'S'
        && "PKTLSB"@[5] == 'B');
    reveal_strlit("PKT-L");
    assert("PKT-L"@.len() == 5 && "PKT-L"@[0] == 'P' && "PKT-L"@[1] == 'K' && "PKT-L"@[2] == 'T'
        && "PKT-L"@[3] == '-' && "PKT-L"@[4] == 'L');
    reveal_strlit("LSB-D");
    assert("LSB-D"@.len() == 5 && "LSB-D"@[0] == 'L' && "LSB-D"@[1] == 'S' && "LSB-D"@[2] == 'B'
        && "LSB-D"@[3] == '-' && "LSB-D"@[4] == 'D');
}

/// An answer is read as that of the request by whose method it was asked for.
pub proof fn law_the_kinds_of_requests(m: Seq<char>)
    ensures
        flrig::kind_of(m) == Sent::GetVfo <==> m == "rig.get_vfo"@,
        flrig::kind_of(m) == Sent::GetMode <==> m == "rig.get_mode"@,
        flrig::kind_of(m) == Sent::GetModes <==> m == "rig.get_modes"@,
        flrig::kind_of(m) == Sent::GetXcvr <==> m == "rig.get_xcvr"@,
        flrig::kind_of(m) == Sent::GetMaxPwr <==> m == "rig.get_maxpwr"@,
        flrig::kind_of(m) == Sent::GetPower <==> m == "rig.get_power"@,
        flrig::kind_of(m) == Sent::GetDbm <==> m == "rig.get_DBM"@,
        flrig::kind_of(m) == Sent::GetSwr <==> m == "rig.get_swrmeter"@,
        flrig::kind_of(m) == Sent::GetPo <==> m == "rig.get_pwrmeter"@,
        flrig::kind_of(m) == Sent::GetPtt <==> m == "rig.get_ptt"@,
{
    reveal_strlit("rig.get_vfo");
    assert("rig.get_vfo"@.len() == 11 && "rig.get_vfo"@[0] == 'r' && "rig.get_vfo"@[1] == 'i'
        && "rig.get_vfo"@[2] == 'g' && "rig.get_vfo"@[3] == '.' && "rig.get_vfo"@[4] == 'g'
        && "rig.get_vfo"@[5] == 'e' && "rig.get_vfo"@[6] == 't' && "rig.get_vfo"@[7] == '_'
        && "rig.get_vfo"@[8] == 'v' && "rig.get_vfo"@[9] == 'f' && "rig.get_vfo"@[10] == 'o');
    reveal_strlit("rig.get_mode");
    assert("rig.get_mode"@.len() == 12 && "rig.get_mode"@[0] == 'r' && "rig.get_mode"@[1] == 'i'
        && "rig.get_mode"@[2] == 'g' && "rig.get_mode"@[3] == '.' && "rig.get_mode"@[4] == 'g'
        && "rig.get_mode"@[5] == 'e' && "rig.get_mode"@[6] == 't' && "rig.get_mode"@[7] == '_'
        && "rig.get_mode"@[8] == 'm' && "rig.get_mode"@[9] == 'o' && "rig.get_mode"@[10] == 'd'
        && "rig.get_mode"@[11] == 'e');
    reveal_strlit("rig.get_modes");
    assert("rig.get_modes"@.len() == 13 && "rig.get_modes"@[0] == 'r'
        && "rig.get_modes"@[1] == 'i' && "rig.get_modes"@[2] == 'g' && "rig.get_modes"@[3] == '.'
        && "rig.get_modes"@[4] == 'g' && "rig.get_modes"@[5] == 'e' && "rig.get_modes"@[6] == 't'
        && "rig.get_modes"@[7] == '_' && "rig.get_modes"@[8] == 'm' && "rig.get_modes"@[9] == 'o'
        && "rig.get_modes"@[10] == 'd' && "rig.get_modes"@[11] == 'e'
        && "rig.get_modes"@[12] == 's');
    reveal_strlit("rig.get_xcvr");
    assert("rig.get_xcvr"@.len() == 12 && "rig.get_xcvr"@[0] == 'r' && "rig.get_xcvr"@[1] == 'i'
        && "rig.get_xcvr"@[2] == 'g' && "rig.get_xcvr"@[3] == '.' && "rig.get_xcvr"@[4] == 'g'
        && "rig.get_xcvr"@[5] == 'e' && "rig.get_xcvr"@[6] == 't' && "rig.get_xcvr"@[7] == '_'
        && "rig.get_xcvr"@[8] == 'x' && "rig.get_xcvr"@[9] == 'c' && "rig.get_xcvr"@[10] == 'v'
        && "rig.get_xcvr"@[11] == 'r');
    reveal_strlit("rig.get_maxpwr");
    assert("rig.get_maxpwr"@.len() == 14 && "rig.get_maxpwr"@[0] == 'r'
        && "rig.get_maxpwr"@[1] == 'i' && "rig.get_maxpwr"@[2] == 'g'
        && "rig.get_maxpwr"@[3] == '.' && "rig.get_maxpwr"@[4] == 'g'
        && "rig.get_maxpwr"@[5] == 'e' && "rig.get_maxpwr"@[6] == 't'
        && "rig.get_maxpwr"@[7] == '_' && "rig.get_maxpwr"@[8] == 'm'
        && "rig.get_maxpwr"@[9] == 'a' && "rig.get_maxpwr"@[10] == 'x'
        && "rig.get_maxpwr"@[11] == 'p' && "rig.get_maxpwr"@[12] == 'w'
        && "rig.get_maxpwr"@[13] == 'r');
    reveal_strlit("rig.get_power");
    assert("rig.get_power"@.len() == 13 && "rig.get_power"@[0] == 'r'
        && "rig.get_power"@[1] == 'i' && "rig.get_power"@[2] == 'g' && "rig.get_power"@[3] == '.'
        && "rig.get_power"@[4] == 'g' && "rig.get_power"@[5] == 'e' && "rig.get_power"@[6] == 't'
        && "rig.get_power"@[7] == '_' && "rig.get_power"@[8] == 'p' && "rig.get_power"@[9] == 'o'
        && "rig.get_power"@[10] == 'w' && "rig.get_power"@[11] == 'e'
        && "rig.get_power"@[12] == 'r');
    reveal_strlit("rig.get_DBM");
    assert("rig.get_DBM"@.len() == 11 && "rig.get_DBM"@[0] == 'r' && "rig.get_DBM"@[1] == 'i'
        && "rig.get_DBM"@[2] == 'g' && "rig.get_DBM"@[3] == '.' && "rig.get_DBM"@[4] == 'g'
        && "rig.get_DBM"@[5] == 'e' && "rig.get_DBM"@[6] == 't' && "rig.get_DBM"@[7] == '_'
        && "rig.get_DBM"@[8] == 'D' && "rig.get_DBM"@[9] == 'B' && "rig.get_DBM"@[10] == 'M');
    reveal_strlit("rig.get_swrmeter");
    assert("rig.get_swrmeter"@.len() == 16 && "rig.get_swrmeter"@[0] == 'r'
        && "rig.get_swrmeter"@[1] == 'i' && "rig.get_swrmeter"@[2] == 'g'
        && "rig.get_swrmeter"@[3] == '.' && "rig.get_swrmeter"@[4] == 'g'
        && "rig.get_swrmeter"@[5] == 'e' && "rig.get_swrmeter"@[6] == 't'
        && "rig.get_swrmeter"@[7] == '_' && "rig.get_swrmeter"@[8] == 's'
        && "rig.get_swrmeter"@[9] == 'w' && "rig.get_swrmeter"@[10] == 'r'
        && "rig.get_swrmeter"@[11] == 'm' && "rig.get_swrmeter"@[12] == 'e'
        && "rig.get_swrmeter"@[13] == 't' && "rig.get_swrmeter"@[14] == 'e'
        && "rig.get_swrmeter"@[15] == 'r');
    reveal_strlit("rig.get_pwrmeter");
    assert("rig.get_pwrmeter"@.len() == 16 && "rig.get_pwrmeter"@[0] == 'r'
        && "rig.get_pwrmeter"@[1] == 'i' && "rig.get_pwrmeter"@[2] == 'g'
        && "rig.get_pwrmeter"@[3] == '.' && "rig.get_pwrmeter"@[4] == 'g'
        && "rig.get_pwrmeter"@[5] == 'e' && "rig.get_pwrmeter"@[6] == 't'
        && "rig.get_pwrmeter"@[7] == '_' && "rig.get_pwrmeter"@[8] == 'p'
        && "rig.get_pwrmeter"@[9] == 'w' && "rig.get_pwrmeter"@[10] == 'r'
        && "rig.get_pwrmeter"@[11] == 'm' && "rig.get_pwrmeter"@[12] == 'e'
        && "rig.get_pwrmeter"@[13] == 't' && "rig.get_pwrmeter"@[14] == 'e'
        && "rig.get_pwrmeter"@[15] == 'r');
    reveal_strlit("rig.get_ptt");
    assert("rig.get_ptt"@.len() == 11 && "rig.get_ptt"@[0] == 'r' && "rig.get_ptt"@[1] == 'i'
        && "rig.get_ptt"@[2] == 'g' && "rig.get_ptt"@[3] == '.' && "rig.get_ptt"@[4] == 'g'
        && "rig.get_ptt"@[5] == 'e' && "rig.get_ptt"@[6] == 't' && "rig.get_ptt"@[7] == '_'
        && "rig.get_ptt"@[8] == 'p' && "rig.get_ptt"@[9] == 't' && "rig.get_ptt"@[10] == 't');
}

/// A mode is commanded by the first of its names that the rig has, in this order of
/// preference, and by the first of all where the rig's names are not known.
pub proof fn law_which_name_commands_a_mode()
    ensures
        flrig::candidates_of(Mode::Lsb) == seq!["LSB"@],
        flrig::candidates_of(Mode::Usb) == seq!["USB"@],
        flrig::candidates_of(Mode::Spec) == seq!["USB"@],
        flrig::candidates_of(Mode::Sstv) == seq!["USB"@],
        flrig::candidates_of(Mode::Wefax) == seq!["USB"@],
        flrig::candidates_of(Mode::RfPaint) == seq!["USB"@],
        flrig::candidates_of(Mode::Cw) == seq!["CW"@],
        flrig::candidates_of(Mode::Am) == seq!["AM"@],
        flrig::candidates_of(Mode::Sam) == seq!["AM"@],
        flrig::candidates_of(Mode::Dsb) == seq!["DSB"@],
        flrig::candidates_of(Mode::Nfm) == seq!["FM"@, "FM-N"@, "NFM"@],
        flrig::candidates_of(Mode::Wfm) == seq!["WFM"@, "FM-W"@],
        flrig::candidates_of(Mode::Packet) == seq![
            "PKT-FM"@,
            "PKTFM"@,
            "DATA-FM"@,
            "FM-D"@,
            "FM"@,
        ],
        flrig::candidates_of(Mode::Rifp) == flrig::candidates_of(Mode::Packet),
        flrig::candidates_of(Mode::Digl) == seq![
            "DATA-R"@,
            "DATA-L"@,
            "DIGL"@,
            "PKT-LSB"@,
            "PKTLSB"@,
            "PKT-L"@,
            "LSB-D"@,
            "LSB"@,
        ],
        flrig::candidates_of(Mode::Digu) == seq![
            "DATA"@,
            "DATA-U"@,
            "DIGU"@,
            "PKT-USB"@,
            "PKTUSB"@,
            "PKT-U"@,
            "USB-D"@,
            "DIG"@,
            "PKT"@,
            "USB"@,
        ],
        forall|m: Mode|
            #![trigger flrig::candidates_of(m)]
            m == Mode::Ft8 || m == Mode::Js8 || m == Mode::Wspr || m == Mode::Ft4 || m == Mode::Ft2
                || m == Mode::Psk || m == Mode::Rtty || m == Mode::Olivia || m == Mode::Thor || m
                == Mode::Fsq || m == Mode::Hell || m == Mode::PacketHf || m == Mode::Rade
                ==> flrig::candidates_of(m) == flrig::candidates_of(Mode::Digu),
{
}

proof fn lemma_first_had(cands: Seq<Seq<char>>, modes: Seq<Seq<char>>, from: int)
    requires
        0 <= from <= cands.len(),
    ensures
        match flrig::first_had(cands, modes, from) {
            None => forall|i: int| from <= i < cands.len() ==> !modes.contains(#[trigger] cands[i]),
            Some(n) => exists|i: int|
                {
                    &&& from <= i < cands.len()
                    &&& #[trigger] cands[i] == n
                    &&& modes.contains(n)
                    &&& forall|j: int| from <= j < i ==> !modes.contains(#[trigger] cands[j])
                },
        },
    decreases cands.len() - from,
{
    if from < cands.len() {
        if modes.contains(cands[from]) {
            assert(cands[from] == flrig::first_had(cands, modes, from)->0);
        } else {
            lemma_first_had(cands, modes, from + 1);
            match flrig::first_had(cands, modes, from + 1) {
                Some(n) => {
                    let i = choose|i: int|
                        {
                            &&& from + 1 <= i < cands.len()
                            &&& #[trigger] cands[i] == n
                            &&& modes.contains(n)
                            &&& forall|j: int|
                                from + 1 <= j < i ==> !modes.contains(#[trigger] cands[j])
                        };
                    assert(cands[i] == n);
                },
                None => {},
            }
        }
    }
}

/// Among the names that the rig has, the one that is preferred most is chosen, and
/// none only where the rig has none of them.
pub proof fn law_the_preferred_name_is_chosen(modes: Seq<Seq<char>>, m: Mode)
    ensures
        modes.len() == 0 ==> flrig::name_for(modes, m) == Some(flrig::candidates_of(m)[0]),
        modes.len() > 0 ==> match flrig::name_for(modes, m) {
            None => forall|i: int|
                0 <= i < flrig::candidates_of(m).len() ==> !modes.contains(
                    #[trigger] flrig::candidates_of(m)[i],
                ),
            Some(n) => exists|i: int|
                {
                    &&& 0 <= i < flrig::candidates_of(m).len()
                    &&& #[trigger] flrig::candidates_of(m)[i] == n
                    &&& modes.contains(n)
                    &&& forall|j: int|
                        0 <= j < i ==> !modes.contains(#[trigger] flrig::candidates_of(m)[j])
                },
        },
{
    lemma_first_had(flrig::candidates_of(m), modes, 0);
}

/// The SWR meter is a line from 1.0 at nothing through 1.5 at a quarter, 2.0 at the
/// middle and 3.0 at three quarters to 5.0 at its end, where it stays.
pub proof fn law_the_swr_scale(raw: int)
    requires
        raw >= 0,
    ensures
        raw <= 50_000_000 ==> 50 * (flrig::swr_of(raw) - 1_000_000) <= raw < 50 * (flrig::swr_of(
            raw,
        ) - 999_999),
        50_000_000 <= raw <= 75_000_000 ==> 25 * (flrig::swr_of(raw) - 2_000_000) <= raw
            - 50_000_000 < 25 * (flrig::swr_of(raw) - 1_999_999),
        75_000_000 <= raw <= 100_000_000 ==> 25 * (flrig::swr_of(raw) - 3_000_000) <= 2 * (raw
            - 75_000_000) < 25 * (flrig::swr_of(raw) - 2_999_999),
        raw >= 100_000_000 ==> flrig::swr_of(raw) == 5_000_000,
{
}

/// A power in watts is the part of the most that the rig has, none below nothing and
/// all of it above.
pub proof fn law_a_power_is_a_part_of_the_most(w: int, max_w: int)
    requires
        max_w > 0,
    ensures
        w <= 0 ==> flrig::fraction_of(w, max_w) == 0,
        w >= max_w ==> flrig::fraction_of(w, max_w) == 1_000_000,
        0 < w < max_w ==> flrig::fraction_of(w, max_w) * max_w <= 1_000_000 * w < (
        flrig::fraction_of(w, max_w) + 1) * max_w,
{
    if 0 < w < max_w {
        let x = w * 1_000_000;
        let q = x / max_w;
        assert(q * max_w <= x < (q + 1) * max_w) by (nonlinear_arith)
            requires
                max_w > 0,
                q == x / max_w,
        ;
    }
}

/// A level is commanded in whole watts, the nearest, and never in none.
pub proof fn law_a_level_is_whole_watts(level: int, max_w: int)
    requires
        max_w > 0,
    ensures
        flrig::watts_of(level, max_w) >= 1,
        level <= 0 ==> flrig::watts_of(level, max_w) == 1,
        0 <= level <= 1_000_000
            && flrig::watts_of(level, max_w) > 1 ==> -500_000_000_000 < 1_000_000_000_000
            * flrig::watts_of(level, max_w) - level * max_w <= 500_000_000_000,
        0 <= level <= 1_000_000 && flrig::watts_of(level, max_w) == 1 ==> level * max_w
            < 1_500_000_000_000,
        level >= 1_000_000 ==> flrig::watts_of(level, max_w) == flrig::watts_of(1_000_000, max_w),
{
    if level <= 0 {
        assert(0 * max_w == 0);
    }
}

/// A dial is commanded in whole hertz, the nearest, and none below nothing; a
/// passband by how wide it is, whichever edge is named first, and never narrower
/// than 50 Hz.
pub proof fn law_dial_and_passband_are_whole_hertz(hz: int, lo: int, hi: int)
    ensures
        hz <= 0 ==> flrig::whole_hertz(hz) == 0,
        hz > 0 ==> -500 < 1000 * flrig::whole_hertz(hz) - hz <= 500,
        flrig::width_of(lo, hi) == flrig::width_of(hi, lo),
        hi - lo >= 49_500 ==> -500 < 1000 * flrig::width_of(lo, hi) - (hi - lo) <= 500,
        0 <= hi - lo < 49_500 ==> flrig::width_of(lo, hi) == 50,
{
}

/// Only the makes that are known to move their dial with the mode do.
pub proof fn law_which_rigs_move_their_dial(x: Seq<char>)
    requires
        text::uppers(text::trim(x)) == x,
    ensures
        x.len() < 2 ==> !flrig::shifts_dial(x),
        x.len() >= 2 ==> flrig::shifts_dial(x) == (x[0] == 'K' && (x[1] == '2' || x[1] == '3'
            || x[1] == '4' || x[1] == 'X')),
{
    reveal_strlit("K2");
    reveal_strlit("K3");
    reveal_strlit("K4");
    reveal_strlit("KX");
    if x.len() >= 2 {
        assert(x.take(2).len() == 2 && x.take(2)[0] == x[0] && x.take(2)[1] == x[1]);
        assert(x.take(2) =~= seq![x[0], x[1]]);
        assert("K2"@ =~= seq!['K', '2']);
        assert("K3"@ =~= seq!['K', '3']);
        assert("K4"@ =~= seq!['K', '4']);
        assert("KX"@ =~= seq!['K', 'X']);
    }
}

/// What the rig says of its key is down where it is another number than zero.
pub proof fn law_the_answer_of_a_key(f: FlrigView, nodes: Seq<NodeView>, t: Seq<char>)
    requires
        !xml::has_tag(nodes, "fault"@),
        xml::scalar_of(nodes) == Some(t),
    ensures
        match decimal::int_of(t) {
            Some(n) => if n > 9 || n < -9 {
                flrig::answer(f, Sent::GetPtt, Some(nodes)) == (
                    (FlrigView { lost_step: true, ..f }),
                    Seq::<CatUpdate>::empty(),
                )
            } else {
                flrig::answer(f, Sent::GetPtt, Some(nodes)) == (
                    f,
                    seq![CatUpdate::Ptt(!(n == 0))],
                )
            },
            None => flrig::answer(f, Sent::GetPtt, Some(nodes)) == (
                if t.len() == 0 {
                    f
                } else {
                    FlrigView { lost_step: true, ..f }
                },
                Seq::<CatUpdate>::empty(),
            ),
        },
{
}

/// What it says of its dial is a frequency where it is one, and ends the slips in a
/// row; a zero and an empty answer are none, and anything else is the answer of
/// another request.
pub proof fn law_the_answer_of_a_dial(f: FlrigView, nodes: Seq<NodeView>, t: Seq<char>)
    requires
        !xml::has_tag(nodes, "fault"@),
        xml::scalar_of(nodes) == Some(t),
    ensures
        ({
            let a = flrig::answer(f, Sent::GetVfo, Some(nodes));
            match decimal::number_in(t) {
                Some(n) => {
                    &&& flrig::is_dial(n) ==> {
                        let hz = decimal::fixed_of(t, 0)->0;
                        &&& a.0 == (FlrigView { slips_in_a_row: 0, ..f })
                        &&& a.1.len() == 1
                        &&& a.1[0] is Freq
                        &&& i64::MIN <= 1000 * hz <= i64::MAX ==> a.1[0]->Freq_0 == 1000 * hz
                        &&& 1000 * hz > i64::MAX ==> a.1[0]->Freq_0 == i64::MAX
                    }
                    &&& !flrig::is_dial(n) && floats::double_is_zero(n) ==> a == (
                        f,
                        Seq::<CatUpdate>::empty(),
                    )
                    &&& !flrig::is_dial(n) && !floats::double_is_zero(n) ==> a == (
                        (FlrigView { lost_step: true, ..f }),
                        Seq::<CatUpdate>::empty(),
                    )
                },
                None => a == (
                    if t.len() == 0 {
                        f
                    } else {
                        FlrigView { lost_step: true, ..f }
                    },
                    Seq::<CatUpdate>::empty(),
                ),
            }
        }),
{
}

/// A mode that goes by a name is the mode; one that nothing here knows is none.
pub proof fn law_the_answer_of_a_mode(f: FlrigView, nodes: Seq<NodeView>, t: Seq<char>)
    requires
        !xml::has_tag(nodes, "fault"@),
        xml::scalar_of(nodes) == Some(t),
    ensures
        flrig::answer(f, Sent::GetMode, Some(nodes)) == (
            f,
            match flrig::mode_named(t) {
                Some(m) => seq![CatUpdate::Mode(m)],
                None => seq![],
            },
        ),
{
}

/// Powers are parts of the most that the rig has: the one it is set to, and the one
/// that it puts out where that is not below nothing. The most is what the rig said,
/// where that is above nothing.
pub proof fn law_the_answers_of_powers(f: FlrigView, nodes: Seq<NodeView>, t: Seq<char>, w: int)
    requires
        !xml::has_tag(nodes, "fault"@),
        xml::scalar_of(nodes) == Some(t),
        decimal::fixed_of(t, 6) == Some(w),
    ensures
        flrig::answer(f, Sent::GetPower, Some(nodes)) == (
            f,
            seq![CatUpdate::Power(flrig::fraction_of(w, f.max_w) as i64)],
        ),
        floats::single_sign(t)->0 >= 0 ==> flrig::answer(f, Sent::GetPo, Some(nodes)) == (
            f,
            seq![CatUpdate::Po(flrig::fraction_of(w, f.max_w) as i64)],
        ),
        floats::single_sign(t)->0 < 0 ==> flrig::answer(f, Sent::GetPo, Some(nodes)) == (
            f,
            Seq::<CatUpdate>::empty(),
        ),
        flrig::answer(f, Sent::GetMaxPwr, Some(nodes)).1.len() == 0,
        floats::single_sign(t)->0 > 0 && w > 0 ==> flrig::answer(f, Sent::GetMaxPwr, Some(nodes)).0
            == (FlrigView { max_w: w, ..f }),
        floats::single_sign(t)->0 > 0 && w <= 0 ==> flrig::answer(f, Sent::GetMaxPwr, Some(nodes)).0
            == (FlrigView { max_w: 1, ..f }),
        floats::single_sign(t)->0 <= 0 ==> flrig::answer(f, Sent::GetMaxPwr, Some(nodes)).0 == f,
        floats::single_sign(t)->0 > 0 ==> flrig::answer(f, Sent::GetSwr, Some(nodes)) == (
            f,
            seq![CatUpdate::Swr(flrig::swr_of(w) as i64)],
        ),
        floats::single_sign(t)->0 <= 0 ==> flrig::answer(f, Sent::GetSwr, Some(nodes)) == (
            f,
            Seq::<CatUpdate>::empty(),
        ),
{
}

/// A signal is a number of decibels that is not above nothing and within two
/// hundred below it.
pub proof fn law_the_answer_of_a_signal(f: FlrigView, nodes: Seq<NodeView>, t: Seq<char>)
    requires
        !xml::has_tag(nodes, "fault"@),
        xml::scalar_of(nodes) == Some(t),
    ensures
        ({
            let a = flrig::answer(f, Sent::GetDbm, Some(nodes));
            let heard = decimal::number_in(t) is Some && floats::single_sign(t)->0 <= 0
                && floats::single_within_two_hundred(decimal::number_in(t)->0);
            let dbm = decimal::fixed_of(t, 6)->0;
            &&& a.0 == f
            &&& !heard ==> a.1.len() == 0
            &&& heard && dbm >= -200_000_000 ==> a.1 == seq![CatUpdate::Signal(dbm as i64)]
            &&& heard && dbm < -200_000_000 ==> a.1 == seq![CatUpdate::Signal(-200_000_000i64)]
        }),
{
}

/// What the rig calls itself is kept where it says anything, the names of its modes
/// are those that it lists, a fault is remembered, and an answer that is no document
/// or of a plain command says nothing.
pub proof fn law_the_other_answers(f: FlrigView, sent: Sent, nodes: Seq<NodeView>)
    ensures
        flrig::answer(f, sent, None) == (f, Seq::<CatUpdate>::empty()),
        xml::has_tag(nodes, "fault"@) ==> flrig::answer(f, sent, Some(nodes)) == (
            (FlrigView { failed: true, ..f }),
            Seq::<CatUpdate>::empty(),
        ),
        !xml::has_tag(nodes, "fault"@) ==> {
            &&& flrig::answer(f, Sent::Other, Some(nodes)) == (f, Seq::<CatUpdate>::empty())
            &&& flrig::answer(f, Sent::GetModes, Some(nodes)) == (
                (FlrigView { modes: flrig::modes_of(nodes), ..f }),
                Seq::<CatUpdate>::empty(),
            )
            &&& xml::scalar_of(nodes) is Some && xml::scalar_of(nodes)->0.len() > 0
                ==> flrig::answer(f, Sent::GetXcvr, Some(nodes)) == (
                (FlrigView { xcvr: xml::scalar_of(nodes), ..f }),
                Seq::<CatUpdate>::empty(),
            )
            &&& xml::scalar_of(nodes) is None || xml::scalar_of(nodes)->0.len() == 0
                ==> flrig::answer(f, Sent::GetXcvr, Some(nodes)) == (f, Seq::<CatUpdate>::empty())
        },
{
}

/// An escaped text is escaped character by character: only these three are written
/// otherwise.
pub proof fn law_escaping_goes_character_by_character(s: Seq<char>, c: char)
    ensures
        flrig::escaped(Seq::empty()).len() == 0,
        flrig::escaped(s.push('&')) == flrig::escaped(s) + "&amp;"@,
        flrig::escaped(s.push('<')) == flrig::escaped(s) + "&lt;"@,
        flrig::escaped(s.push('>')) == flrig::escaped(s) + "&gt;"@,
        c != '&' && c != '<' && c != '>' ==> flrig::escaped(s.push(c)) == flrig::escaped(s).push(c),
{
    assert(s.push('&').drop_last() =~= s);
    assert(s.push('<').drop_last() =~= s);
    assert(s.push('>').drop_last() =~= s);
    assert(s.push(c).drop_last() =~= s);
}

/// No escaped text opens or closes a tag.
pub proof fn law_no_escaped_text_is_a_tag(s: Seq<char>, i: int)
    requires
        0 <= i < flrig::escaped(s).len(),
    ensures
        flrig::escaped(s)[i] != '<',
        flrig::escaped(s)[i] != '>',
    decreases s.len(),
{
    if s.len() > 0 {
        reveal_strlit("&amp;");
        reveal_strlit("&lt;");
        reveal_strlit("&gt;");
        let front = flrig::escaped(s.drop_last());
        if i < front.len() {
            law_no_escaped_text_is_a_tag(s.drop_last(), i);
        }
    }
}

/// A call is a request to `/RPC2` whose body says its method and its parameters in
/// order, with the length of that body in bytes.
pub proof fn law_what_a_call_is(host: Seq<char>, method: Seq<char>, params: Seq<ParamView>, p: ParamView)
    ensures
        flrig::call_bytes(host, method, params) == vstd::utf8::encode_utf8(
            "POST /RPC2 HTTP/1.1\r\nHost: "@ + host
                + "\r\nUser-Agent: sdroxide\r\nContent-Type: text/xml\r\nContent-Length: "@
                + text::dec(vstd::utf8::encode_utf8(flrig::call_xml(method, params)).len())
                + "\r\n\r\n"@ + flrig::call_xml(method, params),
        ),
        flrig::call_xml(method, params)
            == "<?xml version=\"1.0\"?><methodCall><methodName>"@ + method
            + "</methodName><params>"@ + flrig::params_xml(params) + "</params></methodCall>"@,
        flrig::params_xml(Seq::empty()).len() == 0,
        flrig::params_xml(params.push(p)) == flrig::params_xml(params) + flrig::param_xml(p),
{
    assert(params.push(p).drop_last() =~= params);
}

/// A parameter says its type.
pub proof fn law_what_a_parameter_is(v: int, n: nat, s: Seq<char>)
    ensures
        flrig::param_xml(ParamView::Int(v)) == "<param><value>"@ + ("<i4>"@ + text::signed_dec(v)
            + "</i4>"@) + "</value></param>"@,
        flrig::param_xml(ParamView::Double(n)) == "<param><value>"@ + ("<double>"@ + text::dec(n)
            + "</double>"@) + "</value></param>"@,
        flrig::param_xml(ParamView::Str(s)) == "<param><value>"@ + ("<string>"@ + flrig::escaped(s)
            + "</string>"@) + "</value></param>"@,
{
}

/// A reply whose head and body have come whole is taken off the buffer and answers
/// the request that has waited longest; one that is no success is a failure, and one
/// that nobody waits for is out of step.
pub proof fn law_a_whole_reply_answers_the_oldest_request(f: FlrigView, h: int, n: int)
    requires
        text::find_seq(f.buf, seq![13u8, 10u8, 13u8, 10u8], 0) == Some(h),
        ({
            let head = http::lines_of(text::utf8_lossy(f.buf.take(h)));
            http::length_of(head, head.len() as int) == Some(n)
        }),
        f.buf.len() >= h + 4 + n,
    ensures
        ({
            let head = http::lines_of(text::utf8_lossy(f.buf.take(h)));
            let l = flrig::look(f);
            let rest = f.buf.skip(h + 4 + n);
            &&& l.more
            &&& l.state.buf == rest || f.pending.len() > 0
            &&& f.pending.len() == 0 ==> l.updates.len() == 0 && l.state == (FlrigView {
                buf: rest,
                lost_step: true,
                ..f
            })
            &&& f.pending.len() > 0 && http::status_of(head) != Some(200int) ==> l.updates.len()
                == 0 && l.state == (FlrigView {
                buf: rest,
                pending: f.pending.skip(1),
                failed: true,
                ..f
            })
            &&& f.pending.len() > 0 && http::status_of(head) == Some(200int) ==> (
                l.state,
                l.updates,
            ) == flrig::answer(
                FlrigView { buf: rest, pending: f.pending.skip(1), ..f },
                f.pending[0],
                xml::nodes_of(text::utf8_lossy(f.buf.subrange(h + 4, h + 4 + n))),
            )
        }),
{
}

/// A reply that has not come whole waits, and one whose length nobody can tell
/// empties the buffer and the requests with it.
pub proof fn law_a_reply_in_part_waits(f: FlrigView)
    ensures
        ({
            let l = flrig::look(f);
            match text::find_seq(f.buf, seq![13u8, 10u8, 13u8, 10u8], 0) {
                None => !l.more && l.updates.len() == 0 && l.state == f,
                Some(h) => {
                    let head = http::lines_of(text::utf8_lossy(f.buf.take(h)));
                    match http::length_of(head, head.len() as int) {
                        None => !l.more && l.updates.len() == 0 && l.state == (FlrigView {
                            buf: Seq::empty(),
                            pending: Seq::empty(),
                            ..f
                        }),
                        Some(n) => f.buf.len() < h + 4 + n ==> !l.more && l.updates.len() == 0
                            && l.state == f,
                    }
                },
            }
        }),
{
}

/// All replies that are there are taken one behind the other, and what they say is
/// handed on in that order.
pub proof fn law_replies_are_taken_in_order(f: FlrigView)
    ensures
        !flrig::look(f).more ==> flrig::drained(f) == (flrig::look(f).state, flrig::look(f).updates),
        flrig::look(f).more && flrig::look(f).state.buf.len() < f.buf.len() ==> flrig::drained(f)
            == (
            flrig::drained(flrig::look(f).state).0,
            flrig::look(f).updates + flrig::drained(flrig::look(f).state).1,
        ),
{
}

/// How much is taken for granted before a rig has said anything, and how often a
/// slip in a row is mended.
pub proof fn law_what_is_taken_for_granted()
    ensures
        flrig::DEFAULT_MAX_W == 100_000_000,
        flrig::GIVE_UP_AFTER == 3,
{
}

/// The names of a rig's modes are taken in capitals and without the space around
/// them, those that are empty left out.
pub proof fn law_names_of_modes_are_tidied(v: Seq<Seq<char>>, name: Seq<char>)
    ensures
        flrig::tidy(Seq::empty()).len() == 0,
        text::trim(name).len() == 0 ==> flrig::tidy(v.push(name)) == flrig::tidy(v),
        text::trim(name).len() > 0 ==> flrig::tidy(v.push(name)) == flrig::tidy(v).push(
            text::uppers(text::trim(name)),
        ),
{
    assert(v.push(name).drop_last() =~= v);
}

/// A list in one text is parted by bars.
pub proof fn law_a_list_is_parted_by_bars(a: Seq<char>, rest: Seq<char>)
    requires
        forall|i: int| 0 <= i < a.len() ==> #[trigger] a[i] != '|',
    ensures
        flrig::split_bars(a) == seq![a],
        flrig::split_bars(a.push('|') + rest) == seq![a] + flrig::split_bars(rest),
{
    let n = a.len() as int;
    text::lemma_find_from(a, '|', 0, n);
    let s = a.push('|') + rest;
    assert forall|j: int| 0 <= j < n implies s[j] != '|' by {
        assert(s[j] == a[j]);
    }
    assert(s[n] == '|');
    text::lemma_find_from(s, '|', 0, n);
    assert(s.take(n) =~= a);
    assert(s.skip(n + 1) =~= rest);
}

/// A rig lists its modes as strings, or in one text where it has no list.
pub proof fn law_where_a_rig_lists_its_modes(nodes: Seq<NodeView>)
    ensures
        ({
            let list = xml::strings_of(nodes, nodes.len() as int);
            &&& list.len() > 0 ==> flrig::modes_of(nodes) == flrig::tidy(list)
            &&& list.len() == 0 && xml::scalar_of(nodes) is Some ==> flrig::modes_of(nodes)
                == flrig::tidy(flrig::split_bars(xml::scalar_of(nodes)->0))
            &&& list.len() == 0 && xml::scalar_of(nodes) is None ==> flrig::modes_of(nodes).len()
                == 0
        }),
{
}

/// The method of a call stands between its two marks.
pub proof fn law_the_method_of_a_call(b: Seq<u8>, s: Seq<char>, i: int, end: int)
    requires
        vstd::utf8::valid_utf8(b),
        s == vstd::utf8::decode_utf8(b),
        text::find_seq(s, "<methodName>"@, 0) == Some(i),
    ensures
        text::find_seq(s, "</methodName>"@, i + 12) == Some(end) ==> flrig::method_in(b) == Some(
            s.subrange(i + 12, end),
        ),
        text::find_seq(s, "</methodName>"@, i + 12) is None ==> flrig::method_in(b) is None,
{
    reveal_strlit("<methodName>");
    assert("<methodName>"@.len() == 12);
}

/// A dial is a number that is not below nothing, a thousand or more, and not without
/// end.
pub proof fn law_what_a_dial_is(n: decimal::Number)
    ensures
        flrig::is_dial(n) <==> !n.negative && floats::double_is_thousand(n)
            && !floats::double_is_endless(n),
{
}

} // verus!
