//! The alphabet and the states of the universal machine.
use vstd::prelude::*;

use crate::tm::Label;

verus! {

/// A state of the universal machine.
#[derive(Debug, Clone, Copy, PartialEq, Eq, PartialOrd, Ord, Hash, Structural)]
pub enum State {
    Accept,
    AcceptSeekHome,
    AccFinalHome,
    AccRestAcc,
    AccRestSkip1,
    AccRestSkip2,
    AccRestState,
    ApplyReadNst,
    ChkAccBack2acc,
    ChkAccC0,
    ChkAccC0Find,
    ChkAccC0Sk1,
    ChkAccC0Sk2,
    ChkAccC1,
    ChkAccC1Find,
    ChkAccC1Sk1,
    ChkAccC1Sk2,
    ChkAccDoRest,
    ChkAccDoRest2,
    ChkAccFailBit,
    ChkAccInit,
    ChkAccIntoAcc,
    ChkAccNextEntry,
    ChkAccOk,
    ChkAccOkAcc,
    ChkAccOkSk1,
    ChkAccOkSk2,
    ChkAccOkFind,
    ChkAccOkSkip,
    ChkAccRestState,
    CmpStC0,
    CmpStC0Find,
    CmpStC1,
    CmpStC1Find,
    CmpStFail,
    CmpStNextbit,
    CmpStOk,
    CmpStRead,
    CmpSymC0,
    CmpSymC0Fb,
    CmpSymC0Fh,
    CmpSymC0S1,
    CmpSymC1,
    CmpSymC1Fb,
    CmpSymC1Fh,
    CmpSymC1S1,
    CmpSymFail,
    CmpSymNb2,
    CmpSymNextbit,
    CmpSymOk,
    CmpSymRead,
    CpNstC0,
    CpNstC0W,
    CpNstC1,
    CpNstC1W,
    CpNstDone,
    CpNstNext,
    CpNstNext2,
    CpNstNext3,
    CpNstRestDo,
    CpNstRestNav,
    CpNstRet,
    CpNsymC0,
    CpNsymC0Fb,
    CpNsymC0Fh,
    CpNsymC0S1,
    CpNsymC0S2,
    CpNsymC0S3,
    CpNsymC1,
    CpNsymC1Fb,
    CpNsymC1Fh,
    CpNsymC1S1,
    CpNsymC1S2,
    CpNsymC1S3,
    CpNsymDone,
    CpNsymFn2,
    CpNsymFn3,
    CpNsymFn4,
    CpNsymFnext,
    CpNsymNav,
    CpNsymNav2,
    CpNsymNav3,
    CpNsymRead,
    CpNsymRestNav,
    CpNsymRet,
    CpNsymRnDo,
    CpNsymRnFh,
    CpNsymRnS1,
    CpNsymRnS2,
    CpNsymRnS3,
    CpNsymSeek,
    DoneSeekHome,
    Init,
    InitSeekEnd,
    InitSkip,
    MarkRule,
    MarkRuleNoMatch,
    MlFindHead,
    MlMark,
    MlNav,
    MlRestore,
    MlS1,
    MlS2,
    MlS3,
    MoveLeft,
    MoveRight,
    MrExtBc0,
    MrExtBc1,
    MrExtBcNext,
    MrExtBcRet,
    MrExtendInit,
    MrExtH1,
    MrExtH2,
    MrExtH3,
    MrExtHome,
    MrExtNavToHead,
    MrExtReadBlank,
    MrExtRestBlank,
    MrExtToBlank,
    MrExtWriteHead,
    MrFindHead,
    MrNav,
    MrPlaceHead,
    MrS1,
    MrS2,
    MrS3,
    MrSkipCell,
    NpMatchPre,
    NpNextbit,
    NpReadDir,
    NpSmcHandler,
    NpSymfRestore,
    RdRead,
    RdSk2,
    RdSk3,
    RdSk4,
    RdSkipToDir,
    ReadDir,
    Reject,
    RejectSeekHome,
    RejFinalHome,
    RejRestAcc,
    RejRestSkip1,
    RejRestSkip2,
    RejRestState,
    SmcFh,
    SmcRestDone,
    SmcRestHead,
    SmcRestSym,
    SmcS1,
    SmcSkipSt,
    StfFindStar,
    StfGoPrev,
    StfRestoreRule,
    StfRestoreState,
    StfSkipRest,
    StMatchCleanup,
    StmBackToRule,
    StmGoLeft,
    StmGotoState,
    StmRestoreRule,
    StmRestoreState,
    SymfDeactivate,
    SymfRestHead,
    SymfRestSym,
    SymfSeekStar,
    SymfSkipRest,
    SymfSkipSt,
    SymMatchCleanup,
    SymSkipState,
}

/// The State whose index is `n` (the last one for larger `n`).
pub open spec fn state_from_index(n: nat) -> State {
    if n == 0 {
        State::Accept
    } else if n == 1 {
        State::AcceptSeekHome
    } else if n == 2 {
        State::AccFinalHome
    } else if n == 3 {
        State::AccRestAcc
    } else if n == 4 {
        State::AccRestSkip1
    } else if n == 5 {
        State::AccRestSkip2
    } else if n == 6 {
        State::AccRestState
    } else if n == 7 {
        State::ApplyReadNst
    } else if n == 8 {
        State::ChkAccBack2acc
    } else if n == 9 {
        State::ChkAccC0
    } else if n == 10 {
        State::ChkAccC0Find
    } else if n == 11 {
        State::ChkAccC0Sk1
    } else if n == 12 {
        State::ChkAccC0Sk2
    } else if n == 13 {
        State::ChkAccC1
    } else if n == 14 {
        State::ChkAccC1Find
    } else if n == 15 {
        State::ChkAccC1Sk1
    } else if n == 16 {
        State::ChkAccC1Sk2
    } else if n == 17 {
        State::ChkAccDoRest
    } else if n == 18 {
        State::ChkAccDoRest2
    } else if n == 19 {
        State::ChkAccFailBit
    } else if n == 20 {
        State::ChkAccInit
    } else if n == 21 {
        State::ChkAccIntoAcc
    } else if n == 22 {
        State::ChkAccNextEntry
    } else if n == 23 {
        State::ChkAccOk
    } else if n == 24 {
        State::ChkAccOkAcc
    } else if n == 25 {
        State::ChkAccOkSk1
    } else if n == 26 {
        State::ChkAccOkSk2
    } else if n == 27 {
        State::ChkAccOkFind
    } else if n == 28 {
        State::ChkAccOkSkip
    } else if n == 29 {
        State::ChkAccRestState
    } else if n == 30 {
        State::CmpStC0
    } else if n == 31 {
        State::CmpStC0Find
    } else if n == 32 {
        State::CmpStC1
    } else if n == 33 {
        State::CmpStC1Find
    } else if n == 34 {
        State::CmpStFail
    } else if n == 35 {
        State::CmpStNextbit
    } else if n == 36 {
        State::CmpStOk
    } else if n == 37 {
        State::CmpStRead
    } else if n == 38 {
        State::CmpSymC0
    } else if n == 39 {
        State::CmpSymC0Fb
    } else if n == 40 {
        State::CmpSymC0Fh
    } else if n == 41 {
        State::CmpSymC0S1
    } else if n == 42 {
        State::CmpSymC1
    } else if n == 43 {
        State::CmpSymC1Fb
    } else if n == 44 {
        State::CmpSymC1Fh
    } else if n == 45 {
        State::CmpSymC1S1
    } else if n == 46 {
        State::CmpSymFail
    } else if n == 47 {
        State::CmpSymNb2
    } else if n == 48 {
        State::CmpSymNextbit
    } else if n == 49 {
        State::CmpSymOk
    } else if n == 50 {
        State::CmpSymRead
    } else if n == 51 {
        State::CpNstC0
    } else if n == 52 {
        State::CpNstC0W
    } else if n == 53 {
        State::CpNstC1
    } else if n == 54 {
        State::CpNstC1W
    } else if n == 55 {
        State::CpNstDone
    } else if n == 56 {
        State::CpNstNext
    } else if n == 57 {
        State::CpNstNext2
    } else if n == 58 {
        State::CpNstNext3
    } else if n == 59 {
        State::CpNstRestDo
    } else if n == 60 {
        State::CpNstRestNav
    } else if n == 61 {
        State::CpNstRet
    } else if n == 62 {
        State::CpNsymC0
    } else if n == 63 {
        State::CpNsymC0Fb
    } else if n == 64 {
        State::CpNsymC0Fh
    } else if n == 65 {
        State::CpNsymC0S1
    } else if n == 66 {
        State::CpNsymC0S2
    } else if n == 67 {
        State::CpNsymC0S3
    } else if n == 68 {
        State::CpNsymC1
    } else if n == 69 {
        State::CpNsymC1Fb
    } else if n == 70 {
        State::CpNsymC1Fh
    } else if n == 71 {
        State::CpNsymC1S1
    } else if n == 72 {
        State::CpNsymC1S2
    } else if n == 73 {
        State::CpNsymC1S3
    } else if n == 74 {
        State::CpNsymDone
    } else if n == 75 {
        State::CpNsymFn2
    } else if n == 76 {
        State::CpNsymFn3
    } else if n == 77 {
        State::CpNsymFn4
    } else if n == 78 {
        State::CpNsymFnext
    } else if n == 79 {
        State::CpNsymNav
    } else if n == 80 {
        State::CpNsymNav2
    } else if n == 81 {
        State::CpNsymNav3
    } else if n == 82 {
        State::CpNsymRead
    } else if n == 83 {
        State::CpNsymRestNav
    } else if n == 84 {
        State::CpNsymRet
    } else if n == 85 {
        State::CpNsymRnDo
    } else if n == 86 {
        State::CpNsymRnFh
    } else if n == 87 {
        State::CpNsymRnS1
    } else if n == 88 {
        State::CpNsymRnS2
    } else if n == 89 {
        State::CpNsymRnS3
    } else if n == 90 {
        State::CpNsymSeek
    } else if n == 91 {
        State::DoneSeekHome
    } else if n == 92 {
        State::Init
    } else if n == 93 {
        State::InitSeekEnd
    } else if n == 94 {
        State::InitSkip
    } else if n == 95 {
        State::MarkRule
    } else if n == 96 {
        State::MarkRuleNoMatch
    } else if n == 97 {
        State::MlFindHead
    } else if n == 98 {
        State::MlMark
    } else if n == 99 {
        State::MlNav
    } else if n == 100 {
        State::MlRestore
    } else if n == 101 {
        State::MlS1
    } else if n == 102 {
        State::MlS2
    } else if n == 103 {
        State::MlS3
    } else if n == 104 {
        State::MoveLeft
    } else if n == 105 {
        State::MoveRight
    } else if n == 106 {
        State::MrExtBc0
    } else if n == 107 {
        State::MrExtBc1
    } else if n == 108 {
        State::MrExtBcNext
    } else if n == 109 {
        State::MrExtBcRet
    } else if n == 110 {
        State::MrExtendInit
    } else if n == 111 {
        State::MrExtH1
    } else if n == 112 {
        State::MrExtH2
    } else if n == 113 {
        State::MrExtH3
    } else if n == 114 {
        State::MrExtHome
    } else if n == 115 {
        State::MrExtNavToHead
    } else if n == 116 {
        State::MrExtReadBlank
    } else if n == 117 {
        State::MrExtRestBlank
    } else if n == 118 {
        State::MrExtToBlank
    } else if n == 119 {
        State::MrExtWriteHead
    } else if n == 120 {
        State::MrFindHead
    } else if n == 121 {
        State::MrNav
    } else if n == 122 {
        State::MrPlaceHead
    } else if n == 123 {
        State::MrS1
    } else if n == 124 {
        State::MrS2
    } else if n == 125 {
        State::MrS3
    } else if n == 126 {
        State::MrSkipCell
    } else if n == 127 {
        State::NpMatchPre
    } else if n == 128 {
        State::NpNextbit
    } else if n == 129 {
        State::NpReadDir
    } else if n == 130 {
        State::NpSmcHandler
    } else if n == 131 {
        State::NpSymfRestore
    } else if n == 132 {
        State::RdRead
    } else if n == 133 {
        State::RdSk2
    } else if n == 134 {
        State::RdSk3
    } else if n == 135 {
        State::RdSk4
    } else if n == 136 {
        State::RdSkipToDir
    } else if n == 137 {
        State::ReadDir
    } else if n == 138 {
        State::Reject
    } else if n == 139 {
        State::RejectSeekHome
    } else if n == 140 {
        State::RejFinalHome
    } else if n == 141 {
        State::RejRestAcc
    } else if n == 142 {
        State::RejRestSkip1
    } else if n == 143 {
        State::RejRestSkip2
    } else if n == 144 {
        State::RejRestState
    } else if n == 145 {
        State::SmcFh
    } else if n == 146 {
        State::SmcRestDone
    } else if n == 147 {
        State::SmcRestHead
    } else if n == 148 {
        State::SmcRestSym
    } else if n == 149 {
        State::SmcS1
    } else if n == 150 {
        State::SmcSkipSt
    } else if n == 151 {
        State::StfFindStar
    } else if n == 152 {
        State::StfGoPrev
    } else if n == 153 {
        State::StfRestoreRule
    } else if n == 154 {
        State::StfRestoreState
    } else if n == 155 {
        State::StfSkipRest
    } else if n == 156 {
        State::StMatchCleanup
    } else if n == 157 {
        State::StmBackToRule
    } else if n == 158 {
        State::StmGoLeft
    } else if n == 159 {
        State::StmGotoState
    } else if n == 160 {
        State::StmRestoreRule
    } else if n == 161 {
        State::StmRestoreState
    } else if n == 162 {
        State::SymfDeactivate
    } else if n == 163 {
        State::SymfRestHead
    } else if n == 164 {
        State::SymfRestSym
    } else if n == 165 {
        State::SymfSeekStar
    } else if n == 166 {
        State::SymfSkipRest
    } else if n == 167 {
        State::SymfSkipSt
    } else if n == 168 {
        State::SymMatchCleanup
    } else {
        State::SymSkipState
    }
}

impl Label for State {
    open spec fn spec_index(self) -> nat {
        match self {
            State::Accept => 0,
            State::AcceptSeekHome => 1,
            State::AccFinalHome => 2,
            State::AccRestAcc => 3,
            State::AccRestSkip1 => 4,
            State::AccRestSkip2 => 5,
            State::AccRestState => 6,
            State::ApplyReadNst => 7,
            State::ChkAccBack2acc => 8,
            State::ChkAccC0 => 9,
            State::ChkAccC0Find => 10,
            State::ChkAccC0Sk1 => 11,
            State::ChkAccC0Sk2 => 12,
            State::ChkAccC1 => 13,
            State::ChkAccC1Find => 14,
            State::ChkAccC1Sk1 => 15,
            State::ChkAccC1Sk2 => 16,
            State::ChkAccDoRest => 17,
            State::ChkAccDoRest2 => 18,
            State::ChkAccFailBit => 19,
            State::ChkAccInit => 20,
            State::ChkAccIntoAcc => 21,
            State::ChkAccNextEntry => 22,
            State::ChkAccOk => 23,
            State::ChkAccOkAcc => 24,
            State::ChkAccOkSk1 => 25,
            State::ChkAccOkSk2 => 26,
            State::ChkAccOkFind => 27,
            State::ChkAccOkSkip => 28,
            State::ChkAccRestState => 29,
            State::CmpStC0 => 30,
            State::CmpStC0Find => 31,
            State::CmpStC1 => 32,
            State::CmpStC1Find => 33,
            State::CmpStFail => 34,
            State::CmpStNextbit => 35,
            State::CmpStOk => 36,
            State::CmpStRead => 37,
            State::CmpSymC0 => 38,
            State::CmpSymC0Fb => 39,
            State::CmpSymC0Fh => 40,
            State::CmpSymC0S1 => 41,
            State::CmpSymC1 => 42,
            State::CmpSymC1Fb => 43,
            State::CmpSymC1Fh => 44,
            State::CmpSymC1S1 => 45,
            State::CmpSymFail => 46,
            State::CmpSymNb2 => 47,
            State::CmpSymNextbit => 48,
            State::CmpSymOk => 49,
            State::CmpSymRead => 50,
            State::CpNstC0 => 51,
            State::CpNstC0W => 52,
            State::CpNstC1 => 53,
            State::CpNstC1W => 54,
            State::CpNstDone => 55,
            State::CpNstNext => 56,
            State::CpNstNext2 => 57,
            State::CpNstNext3 => 58,
            State::CpNstRestDo => 59,
            State::CpNstRestNav => 60,
            State::CpNstRet => 61,
            State::CpNsymC0 => 62,
            State::CpNsymC0Fb => 63,
            State::CpNsymC0Fh => 64,
            State::CpNsymC0S1 => 65,
            State::CpNsymC0S2 => 66,
            State::CpNsymC0S3 => 67,
            State::CpNsymC1 => 68,
            State::CpNsymC1Fb => 69,
            State::CpNsymC1Fh => 70,
            State::CpNsymC1S1 => 71,
            State::CpNsymC1S2 => 72,
            State::CpNsymC1S3 => 73,
            State::CpNsymDone => 74,
            State::CpNsymFn2 => 75,
            State::CpNsymFn3 => 76,
            State::CpNsymFn4 => 77,
            State::CpNsymFnext => 78,
            State::CpNsymNav => 79,
            State::CpNsymNav2 => 80,
            State::CpNsymNav3 => 81,
            State::CpNsymRead => 82,
            State::CpNsymRestNav => 83,
            State::CpNsymRet => 84,
            State::CpNsymRnDo => 85,
            State::CpNsymRnFh => 86,
            State::CpNsymRnS1 => 87,
            State::CpNsymRnS2 => 88,
            State::CpNsymRnS3 => 89,
            State::CpNsymSeek => 90,
            State::DoneSeekHome => 91,
            State::Init => 92,
            State::InitSeekEnd => 93,
            State::InitSkip => 94,
            State::MarkRule => 95,
            State::MarkRuleNoMatch => 96,
            State::MlFindHead => 97,
            State::MlMark => 98,
            State::MlNav => 99,
            State::MlRestore => 100,
            State::MlS1 => 101,
            State::MlS2 => 102,
            State::MlS3 => 103,
            State::MoveLeft => 104,
            State::MoveRight => 105,
            State::MrExtBc0 => 106,
            State::MrExtBc1 => 107,
            State::MrExtBcNext => 108,
            State::MrExtBcRet => 109,
            State::MrExtendInit => 110,
            State::MrExtH1 => 111,
            State::MrExtH2 => 112,
            State::MrExtH3 => 113,
            State::MrExtHome => 114,
            State::MrExtNavToHead => 115,
            State::MrExtReadBlank => 116,
            State::MrExtRestBlank => 117,
            State::MrExtToBlank => 118,
            State::MrExtWriteHead => 119,
            State::MrFindHead => 120,
            State::MrNav => 121,
            State::MrPlaceHead => 122,
            State::MrS1 => 123,
            State::MrS2 => 124,
            State::MrS3 => 125,
            State::MrSkipCell => 126,
            State::NpMatchPre => 127,
            State::NpNextbit => 128,
            State::NpReadDir => 129,
            State::NpSmcHandler => 130,
            State::NpSymfRestore => 131,
            State::RdRead => 132,
            State::RdSk2 => 133,
            State::RdSk3 => 134,
            State::RdSk4 => 135,
            State::RdSkipToDir => 136,
            State::ReadDir => 137,
            State::Reject => 138,
            State::RejectSeekHome => 139,
            State::RejFinalHome => 140,
            State::RejRestAcc => 141,
            State::RejRestSkip1 => 142,
            State::RejRestSkip2 => 143,
            State::RejRestState => 144,
            State::SmcFh => 145,
            State::SmcRestDone => 146,
            State::SmcRestHead => 147,
            State::SmcRestSym => 148,
            State::SmcS1 => 149,
            State::SmcSkipSt => 150,
            State::StfFindStar => 151,
            State::StfGoPrev => 152,
            State::StfRestoreRule => 153,
            State::StfRestoreState => 154,
            State::StfSkipRest => 155,
            State::StMatchCleanup => 156,
            State::StmBackToRule => 157,
            State::StmGoLeft => 158,
            State::StmGotoState => 159,
            State::StmRestoreRule => 160,
            State::StmRestoreState => 161,
            State::SymfDeactivate => 162,
            State::SymfRestHead => 163,
            State::SymfRestSym => 164,
            State::SymfSeekStar => 165,
            State::SymfSkipRest => 166,
            State::SymfSkipSt => 167,
            State::SymMatchCleanup => 168,
            State::SymSkipState => 169,
        }
    }

    fn index(&self) -> (r: usize) {
        match self {
            State::Accept => 0,
            State::AcceptSeekHome => 1,
            State::AccFinalHome => 2,
            State::AccRestAcc => 3,
            State::AccRestSkip1 => 4,
            State::AccRestSkip2 => 5,
            State::AccRestState => 6,
            State::ApplyReadNst => 7,
            State::ChkAccBack2acc => 8,
            State::ChkAccC0 => 9,
            State::ChkAccC0Find => 10,
            State::ChkAccC0Sk1 => 11,
            State::ChkAccC0Sk2 => 12,
            State::ChkAccC1 => 13,
            State::ChkAccC1Find => 14,
            State::ChkAccC1Sk1 => 15,
            State::ChkAccC1Sk2 => 16,
            State::ChkAccDoRest => 17,
            State::ChkAccDoRest2 => 18,
            State::ChkAccFailBit => 19,
            State::ChkAccInit => 20,
            State::ChkAccIntoAcc => 21,
            State::ChkAccNextEntry => 22,
            State::ChkAccOk => 23,
            State::ChkAccOkAcc => 24,
            State::ChkAccOkSk1 => 25,
            State::ChkAccOkSk2 => 26,
            State::ChkAccOkFind => 27,
            State::ChkAccOkSkip => 28,
            State::ChkAccRestState => 29,
            State::CmpStC0 => 30,
            State::CmpStC0Find => 31,
            State::CmpStC1 => 32,
            State::CmpStC1Find => 33,
            State::CmpStFail => 34,
            State::CmpStNextbit => 35,
            State::CmpStOk => 36,
            State::CmpStRead => 37,
            State::CmpSymC0 => 38,
            State::CmpSymC0Fb => 39,
            State::CmpSymC0Fh => 40,
            State::CmpSymC0S1 => 41,
            State::CmpSymC1 => 42,
            State::CmpSymC1Fb => 43,
            State::CmpSymC1Fh => 44,
            State::CmpSymC1S1 => 45,
            State::CmpSymFail => 46,
            State::CmpSymNb2 => 47,
            State::CmpSymNextbit => 48,
            State::CmpSymOk => 49,
            State::CmpSymRead => 50,
            State::CpNstC0 => 51,
            State::CpNstC0W => 52,
            State::CpNstC1 => 53,
            State::CpNstC1W => 54,
            State::CpNstDone => 55,
            State::CpNstNext => 56,
            State::CpNstNext2 => 57,
            State::CpNstNext3 => 58,
            State::CpNstRestDo => 59,
            State::CpNstRestNav => 60,
            State::CpNstRet => 61,
            State::CpNsymC0 => 62,
            State::CpNsymC0Fb => 63,
            State::CpNsymC0Fh => 64,
            State::CpNsymC0S1 => 65,
            State::CpNsymC0S2 => 66,
            State::CpNsymC0S3 => 67,
            State::CpNsymC1 => 68,
            State::CpNsymC1Fb => 69,
            State::CpNsymC1Fh => 70,
            State::CpNsymC1S1 => 71,
            State::CpNsymC1S2 => 72,
            State::CpNsymC1S3 => 73,
            State::CpNsymDone => 74,
            State::CpNsymFn2 => 75,
            State::CpNsymFn3 => 76,
            State::CpNsymFn4 => 77,
            State::CpNsymFnext => 78,
            State::CpNsymNav => 79,
            State::CpNsymNav2 => 80,
            State::CpNsymNav3 => 81,
            State::CpNsymRead => 82,
            State::CpNsymRestNav => 83,
            State::CpNsymRet => 84,
            State::CpNsymRnDo => 85,
            State::CpNsymRnFh => 86,
            State::CpNsymRnS1 => 87,
            State::CpNsymRnS2 => 88,
            State::CpNsymRnS3 => 89,
            State::CpNsymSeek => 90,
            State::DoneSeekHome => 91,
            State::Init => 92,
            State::InitSeekEnd => 93,
            State::InitSkip => 94,
            State::MarkRule => 95,
            State::MarkRuleNoMatch => 96,
            State::MlFindHead => 97,
            State::MlMark => 98,
            State::MlNav => 99,
            State::MlRestore => 100,
            State::MlS1 => 101,
            State::MlS2 => 102,
            State::MlS3 => 103,
            State::MoveLeft => 104,
            State::MoveRight => 105,
            State::MrExtBc0 => 106,
            State::MrExtBc1 => 107,
            State::MrExtBcNext => 108,
            State::MrExtBcRet => 109,
            State::MrExtendInit => 110,
            State::MrExtH1 => 111,
            State::MrExtH2 => 112,
            State::MrExtH3 => 113,
            State::MrExtHome => 114,
            State::MrExtNavToHead => 115,
            State::MrExtReadBlank => 116,
            State::MrExtRestBlank => 117,
            State::MrExtToBlank => 118,
            State::MrExtWriteHead => 119,
            State::MrFindHead => 120,
            State::MrNav => 121,
            State::MrPlaceHead => 122,
            State::MrS1 => 123,
            State::MrS2 => 124,
            State::MrS3 => 125,
            State::MrSkipCell => 126,
            State::NpMatchPre => 127,
            State::NpNextbit => 128,
            State::NpReadDir => 129,
            State::NpSmcHandler => 130,
            State::NpSymfRestore => 131,
            State::RdRead => 132,
            State::RdSk2 => 133,
            State::RdSk3 => 134,
            State::RdSk4 => 135,
            State::RdSkipToDir => 136,
            State::ReadDir => 137,
            State::Reject => 138,
            State::RejectSeekHome => 139,
            State::RejFinalHome => 140,
            State::RejRestAcc => 141,
            State::RejRestSkip1 => 142,
            State::RejRestSkip2 => 143,
            State::RejRestState => 144,
            State::SmcFh => 145,
            State::SmcRestDone => 146,
            State::SmcRestHead => 147,
            State::SmcRestSym => 148,
            State::SmcS1 => 149,
            State::SmcSkipSt => 150,
            State::StfFindStar => 151,
            State::StfGoPrev => 152,
            State::StfRestoreRule => 153,
            State::StfRestoreState => 154,
            State::StfSkipRest => 155,
            State::StMatchCleanup => 156,
            State::StmBackToRule => 157,
            State::StmGoLeft => 158,
            State::StmGotoState => 159,
            State::StmRestoreRule => 160,
            State::StmRestoreState => 161,
            State::SymfDeactivate => 162,
            State::SymfRestHead => 163,
            State::SymfRestSym => 164,
            State::SymfSeekStar => 165,
            State::SymfSkipRest => 166,
            State::SymfSkipSt => 167,
            State::SymMatchCleanup => 168,
            State::SymSkipState => 169,
        }
    }

    proof fn lemma_index_injective(a: Self, b: Self) {
        assert(state_from_index(a.spec_index()) == a);
        assert(state_from_index(b.spec_index()) == b);
    }
}

/// A symbol of the universal machine's tape.
#[derive(Debug, Clone, Copy, PartialEq, Eq, PartialOrd, Ord, Hash, Structural)]
pub enum Symbol {
    Blank,
    Zero,
    One,
    X,
    Y,
    Hash,
    Pipe,
    Semi,
    Comma,
    Caret,
    L,
    R,
    Dot,
    Star,
    Gt,
    Dollar,
}

/// The Symbol whose index is `n` (the last one for larger `n`).
pub open spec fn symbol_from_index(n: nat) -> Symbol {
    if n == 0 {
        Symbol::Blank
    } else if n == 1 {
        Symbol::Zero
    } else if n == 2 {
        Symbol::One
    } else if n == 3 {
        Symbol::X
    } else if n == 4 {
        Symbol::Y
    } else if n == 5 {
        Symbol::Hash
    } else if n == 6 {
        Symbol::Pipe
    } else if n == 7 {
        Symbol::Semi
    } else if n == 8 {
        Symbol::Comma
    } else if n == 9 {
        Symbol::Caret
    } else if n == 10 {
        Symbol::L
    } else if n == 11 {
        Symbol::R
    } else if n == 12 {
        Symbol::Dot
    } else if n == 13 {
        Symbol::Star
    } else if n == 14 {
        Symbol::Gt
    } else {
        Symbol::Dollar
    }
}

impl Label for Symbol {
    open spec fn spec_index(self) -> nat {
        match self {
            Symbol::Blank => 0,
            Symbol::Zero => 1,
            Symbol::One => 2,
            Symbol::X => 3,
            Symbol::Y => 4,
            Symbol::Hash => 5,
            Symbol::Pipe => 6,
            Symbol::Semi => 7,
            Symbol::Comma => 8,
            Symbol::Caret => 9,
            Symbol::L => 10,
            Symbol::R => 11,
            Symbol::Dot => 12,
            Symbol::Star => 13,
            Symbol::Gt => 14,
            Symbol::Dollar => 15,
        }
    }

    fn index(&self) -> (r: usize) {
        match self {
            Symbol::Blank => 0,
            Symbol::Zero => 1,
            Symbol::One => 2,
            Symbol::X => 3,
            Symbol::Y => 4,
            Symbol::Hash => 5,
            Symbol::Pipe => 6,
            Symbol::Semi => 7,
            Symbol::Comma => 8,
            Symbol::Caret => 9,
            Symbol::L => 10,
            Symbol::R => 11,
            Symbol::Dot => 12,
            Symbol::Star => 13,
            Symbol::Gt => 14,
            Symbol::Dollar => 15,
        }
    }

    proof fn lemma_index_injective(a: Self, b: Self) {
        assert(symbol_from_index(a.spec_index()) == a);
        assert(symbol_from_index(b.spec_index()) == b);
    }
}

/// The number of states of the universal machine.
pub const N_UTM_STATES: usize = 170;

/// Every state of the universal machine, in index order.
pub fn all_utm_states() -> (r: Vec<State>)
    ensures
        r@.len() == N_UTM_STATES,
        forall|i: int| 0 <= i < N_UTM_STATES ==> (#[trigger] r@[i]).spec_index() == i,
{
    let r = vec![
        State::Accept,
        State::AcceptSeekHome,
        State::AccFinalHome,
        State::AccRestAcc,
        State::AccRestSkip1,
        State::AccRestSkip2,
        State::AccRestState,
        State::ApplyReadNst,
        State::ChkAccBack2acc,
        State::ChkAccC0,
        State::ChkAccC0Find,
        State::ChkAccC0Sk1,
        State::ChkAccC0Sk2,
        State::ChkAccC1,
        State::ChkAccC1Find,
        State::ChkAccC1Sk1,
        State::ChkAccC1Sk2,
        State::ChkAccDoRest,
        State::ChkAccDoRest2,
        State::ChkAccFailBit,
        State::ChkAccInit,
        State::ChkAccIntoAcc,
        State::ChkAccNextEntry,
        State::ChkAccOk,
        State::ChkAccOkAcc,
        State::ChkAccOkSk1,
        State::ChkAccOkSk2,
        State::ChkAccOkFind,
        State::ChkAccOkSkip,
        State::ChkAccRestState,
        State::CmpStC0,
        State::CmpStC0Find,
        State::CmpStC1,
        State::CmpStC1Find,
        State::CmpStFail,
        State::CmpStNextbit,
        State::CmpStOk,
        State::CmpStRead,
        State::CmpSymC0,
        State::CmpSymC0Fb,
        State::CmpSymC0Fh,
        State::CmpSymC0S1,
        State::CmpSymC1,
        State::CmpSymC1Fb,
        State::CmpSymC1Fh,
        State::CmpSymC1S1,
        State::CmpSymFail,
        State::CmpSymNb2,
        State::CmpSymNextbit,
        State::CmpSymOk,
        State::CmpSymRead,
        State::CpNstC0,
        State::CpNstC0W,
        State::CpNstC1,
        State::CpNstC1W,
        State::CpNstDone,
        State::CpNstNext,
        State::CpNstNext2,
        State::CpNstNext3,
        State::CpNstRestDo,
        State::CpNstRestNav,
        State::CpNstRet,
        State::CpNsymC0,
        State::CpNsymC0Fb,
        State::CpNsymC0Fh,
        State::CpNsymC0S1,
        State::CpNsymC0S2,
        State::CpNsymC0S3,
        State::CpNsymC1,
        State::CpNsymC1Fb,
        State::CpNsymC1Fh,
        State::CpNsymC1S1,
        State::CpNsymC1S2,
        State::CpNsymC1S3,
        State::CpNsymDone,
        State::CpNsymFn2,
        State::CpNsymFn3,
        State::CpNsymFn4,
        State::CpNsymFnext,
        State::CpNsymNav,
        State::CpNsymNav2,
        State::CpNsymNav3,
        State::CpNsymRead,
        State::CpNsymRestNav,
        State::CpNsymRet,
        State::CpNsymRnDo,
        State::CpNsymRnFh,
        State::CpNsymRnS1,
        State::CpNsymRnS2,
        State::CpNsymRnS3,
        State::CpNsymSeek,
        State::DoneSeekHome,
        State::Init,
        State::InitSeekEnd,
        State::InitSkip,
        State::MarkRule,
        State::MarkRuleNoMatch,
        State::MlFindHead,
        State::MlMark,
        State::MlNav,
        State::MlRestore,
        State::MlS1,
        State::MlS2,
        State::MlS3,
        State::MoveLeft,
        State::MoveRight,
        State::MrExtBc0,
        State::MrExtBc1,
        State::MrExtBcNext,
        State::MrExtBcRet,
        State::MrExtendInit,
        State::MrExtH1,
        State::MrExtH2,
        State::MrExtH3,
        State::MrExtHome,
        State::MrExtNavToHead,
        State::MrExtReadBlank,
        State::MrExtRestBlank,
        State::MrExtToBlank,
        State::MrExtWriteHead,
        State::MrFindHead,
        State::MrNav,
        State::MrPlaceHead,
        State::MrS1,
        State::MrS2,
        State::MrS3,
        State::MrSkipCell,
        State::NpMatchPre,
        State::NpNextbit,
        State::NpReadDir,
        State::NpSmcHandler,
        State::NpSymfRestore,
        State::RdRead,
        State::RdSk2,
        State::RdSk3,
        State::RdSk4,
        State::RdSkipToDir,
        State::ReadDir,
        State::Reject,
        State::RejectSeekHome,
        State::RejFinalHome,
        State::RejRestAcc,
        State::RejRestSkip1,
        State::RejRestSkip2,
        State::RejRestState,
        State::SmcFh,
        State::SmcRestDone,
        State::SmcRestHead,
        State::SmcRestSym,
        State::SmcS1,
        State::SmcSkipSt,
        State::StfFindStar,
        State::StfGoPrev,
        State::StfRestoreRule,
        State::StfRestoreState,
        State::StfSkipRest,
        State::StMatchCleanup,
        State::StmBackToRule,
        State::StmGoLeft,
        State::StmGotoState,
        State::StmRestoreRule,
        State::StmRestoreState,
        State::SymfDeactivate,
        State::SymfRestHead,
        State::SymfRestSym,
        State::SymfSeekStar,
        State::SymfSkipRest,
        State::SymfSkipSt,
        State::SymMatchCleanup,
        State::SymSkipState,
    ];
    proof {
        assert forall|i: int| 0 <= i < N_UTM_STATES implies (#[trigger] r@[i]).spec_index() == i by {
        }
    }
    r
}

/// The index of the `i`-th symbol of the universal machine's symbol list.
pub open spec fn utm_symbol_list_index(i: int) -> nat {
    if i == 0 {
        1
    } else if i == 1 {
        2
    } else if i == 2 {
        3
    } else if i == 3 {
        4
    } else if i == 4 {
        10
    } else if i == 5 {
        11
    } else if i == 6 {
        6
    } else if i == 7 {
        7
    } else if i == 8 {
        8
    } else if i == 9 {
        5
    } else if i == 10 {
        9
    } else if i == 11 {
        12
    } else if i == 12 {
        13
    } else if i == 13 {
        14
    } else if i == 14 {
        15
    } else {
        0
    }
}

/// Every symbol of the universal machine, in the order of its encoding.
pub fn all_utm_symbols() -> (r: Vec<Symbol>)
    ensures
        r@.len() == 16,
        forall|i: int| 0 <= i < 16 ==> (#[trigger] r@[i]).spec_index() == utm_symbol_list_index(i),
{
    let r = vec![
        Symbol::Zero,
        Symbol::One,
        Symbol::X,
        Symbol::Y,
        Symbol::L,
        Symbol::R,
        Symbol::Pipe,
        Symbol::Semi,
        Symbol::Comma,
        Symbol::Hash,
        Symbol::Caret,
        Symbol::Dot,
        Symbol::Star,
        Symbol::Gt,
        Symbol::Dollar,
        Symbol::Blank,
    ];
    r
}

impl Symbol {
    /// The character that shows the symbol.
    pub open spec fn spec_char(self) -> char {
        match self {
            Symbol::Blank => '_',
            Symbol::Zero => '0',
            Symbol::One => '1',
            Symbol::X => 'X',
            Symbol::Y => 'Y',
            Symbol::Hash => '#',
            Symbol::Pipe => '|',
            Symbol::Semi => ';',
            Symbol::Comma => ',',
            Symbol::Caret => '^',
            Symbol::L => 'L',
            Symbol::R => 'R',
            Symbol::Dot => '.',
            Symbol::Star => '*',
            Symbol::Gt => '>',
            Symbol::Dollar => '$',
        }
    }

    pub fn to_char(&self) -> (r: char)
        ensures
            r == self.spec_char(),
    {
        match self {
            Symbol::Blank => '_',
            Symbol::Zero => '0',
            Symbol::One => '1',
            Symbol::X => 'X',
            Symbol::Y => 'Y',
            Symbol::Hash => '#',
            Symbol::Pipe => '|',
            Symbol::Semi => ';',
            Symbol::Comma => ',',
            Symbol::Caret => '^',
            Symbol::L => 'L',
            Symbol::R => 'R',
            Symbol::Dot => '.',
            Symbol::Star => '*',
            Symbol::Gt => '>',
            Symbol::Dollar => '$',
        }
    }

    /// The symbol that a character shows, if any.
    pub fn from_char(c: char) -> (r: Option<Symbol>)
        ensures
            r matches Some(s) ==> s.spec_char() == c,
            r is None ==> forall|s: Symbol| s.spec_char() != c,
    {
        if c == '_' {
            return Some(Symbol::Blank);
        }
        if c == '0' {
            return Some(Symbol::Zero);
        }
        if c == '1' {
            return Some(Symbol::One);
        }
        if c == 'X' {
            return Some(Symbol::X);
        }
        if c == 'Y' {
            return Some(Symbol::Y);
        }
        if c == '#' {
            return Some(Symbol::Hash);
        }
        if c == '|' {
            return Some(Symbol::Pipe);
        }
        if c == ';' {
            return Some(Symbol::Semi);
        }
        if c == ',' {
            return Some(Symbol::Comma);
        }
        if c == '^' {
            return Some(Symbol::Caret);
        }
        if c == 'L' {
            return Some(Symbol::L);
        }
        if c == 'R' {
            return Some(Symbol::R);
        }
        if c == '.' {
            return Some(Symbol::Dot);
        }
        if c == '*' {
            return Some(Symbol::Star);
        }
        if c == '>' {
            return Some(Symbol::Gt);
        }
        if c == '$' {
            return Some(Symbol::Dollar);
        }
        None
    }
}


/// Every state has an index below the number of states.
pub proof fn lemma_state_index_bound(s: State)
    ensures
        s.spec_index() < N_UTM_STATES,
{
}

/// Every symbol has an index below 16.
pub proof fn lemma_symbol_index_bound(y: Symbol)
    ensures
        y.spec_index() < 16,
{
}

/// A list of the states in index order holds every state once.
pub proof fn lemma_state_list_complete(list: Seq<State>, s: State)
    requires
        list.len() == N_UTM_STATES,
        forall|i: int| 0 <= i < N_UTM_STATES ==> (#[trigger] list[i]).spec_index() == i,
    ensures
        list.contains(s),
        list.no_duplicates(),
{
    lemma_state_index_bound(s);
    let i = s.spec_index() as int;
    State::lemma_index_injective(list[i], s);
    assert forall|a: int, b: int| 0 <= a < list.len() && 0 <= b < list.len() && a != b implies list[a] != list[b] by {
        assert(list[a].spec_index() == a);
        assert(list[b].spec_index() == b);
    }
}

/// A list of the symbols in encoding order holds every symbol once.
pub proof fn lemma_symbol_list_complete(list: Seq<Symbol>, y: Symbol)
    requires
        list.len() == 16,
        forall|i: int| 0 <= i < 16 ==> (#[trigger] list[i]).spec_index() == utm_symbol_list_index(i),
    ensures
        list.contains(y),
        list.no_duplicates(),
{
    assert(list[0].spec_index() == utm_symbol_list_index(0));
    assert(list[1].spec_index() == utm_symbol_list_index(1));
    assert(list[2].spec_index() == utm_symbol_list_index(2));
    assert(list[3].spec_index() == utm_symbol_list_index(3));
    assert(list[4].spec_index() == utm_symbol_list_index(4));
    assert(list[5].spec_index() == utm_symbol_list_index(5));
    assert(list[6].spec_index() == utm_symbol_list_index(6));
    assert(list[7].spec_index() == utm_symbol_list_index(7));
    assert(list[8].spec_index() == utm_symbol_list_index(8));
    assert(list[9].spec_index() == utm_symbol_list_index(9));
    assert(list[10].spec_index() == utm_symbol_list_index(10));
    assert(list[11].spec_index() == utm_symbol_list_index(11));
    assert(list[12].spec_index() == utm_symbol_list_index(12));
    assert(list[13].spec_index() == utm_symbol_list_index(13));
    assert(list[14].spec_index() == utm_symbol_list_index(14));
    assert(list[15].spec_index() == utm_symbol_list_index(15));
    match y {
        Symbol::Zero => {
            Symbol::lemma_index_injective(list[0], y);
        },
        Symbol::One => {
            Symbol::lemma_index_injective(list[1], y);
        },
        Symbol::X => {
            Symbol::lemma_index_injective(list[2], y);
        },
        Symbol::Y => {
            Symbol::lemma_index_injective(list[3], y);
        },
        Symbol::L => {
            Symbol::lemma_index_injective(list[4], y);
        },
        Symbol::R => {
            Symbol::lemma_index_injective(list[5], y);
        },
        Symbol::Pipe => {
            Symbol::lemma_index_injective(list[6], y);
        },
        Symbol::Semi => {
            Symbol::lemma_index_injective(list[7], y);
        },
        Symbol::Comma => {
            Symbol::lemma_index_injective(list[8], y);
        },
        Symbol::Hash => {
            Symbol::lemma_index_injective(list[9], y);
        },
        Symbol::Caret => {
            Symbol::lemma_index_injective(list[10], y);
        },
        Symbol::Dot => {
            Symbol::lemma_index_injective(list[11], y);
        },
        Symbol::Star => {
            Symbol::lemma_index_injective(list[12], y);
        },
        Symbol::Gt => {
            Symbol::lemma_index_injective(list[13], y);
        },
        Symbol::Dollar => {
            Symbol::lemma_index_injective(list[14], y);
        },
        Symbol::Blank => {
            Symbol::lemma_index_injective(list[15], y);
        },
    }
    assert forall|a: int, b: int| 0 <= a < list.len() && 0 <= b < list.len() && a != b implies list[a] != list[b] by {
        assert(list[a].spec_index() == utm_symbol_list_index(a));
        assert(list[b].spec_index() == utm_symbol_list_index(b));
    }
}

} // verus!
