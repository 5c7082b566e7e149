use vstd::prelude::*;

verus! {

/// A request to the remote service: the query text and the login variables.
#[derive(Debug, Clone)]
pub struct GraphQLRequest {
    pub query: String,
    pub variables: LoginVariables,
}

/// The user name and password sent with a login request.
#[derive(Debug, Clone)]
pub struct LoginVariables {
    pub u: String,
    pub p: String,
}

/// What the remote service answers: the payload, the error records, or neither.
#[derive(Debug, Clone)]
pub struct GraphQLResponse<T> {
    pub data: Option<T>,
    pub errors: Option<Vec<GraphQLError>>,
}

/// One error record of the remote service.
#[derive(Debug, Clone)]
pub struct GraphQLError {
    pub message: String,
}

/// The payload of a successful login: the bearer token.
#[derive(Debug, Clone)]
pub struct LoginData {
    pub login: String,
}

/// The payload of a range listing.
#[derive(Debug, Clone)]
pub struct GetJRangeData {
    pub jrange: Option<JRangeData>,
}

#[derive(Debug, Clone)]
pub struct JRangeData {
    pub days: Option<Vec<JRangeDayData>>,
}

/// One listed day: its date stamp, if the service gave one.
#[derive(Debug, Clone)]
pub struct JRangeDayData {
    pub on: Option<String>,
}

/// A request for one day's workout.
#[derive(Debug, Clone)]
pub struct WorkoutRequest {
    pub query: String,
    pub variables: WorkoutVariables,
}

#[derive(Debug, Clone)]
pub struct WorkoutVariables {
    pub uid: u32,
    pub ymd: Option<String>,
}

/// The answer to a `WorkoutRequest`.
#[derive(Debug, Clone)]
pub struct WorkoutResponse {
    pub data: Option<WorkoutData>,
    pub errors: Option<Vec<GraphQLError>>,
}

#[derive(Debug, Clone)]
pub struct WorkoutData {
    pub jday: Option<JDay>,
}

/// One calendar day's log.
///
/// `log` is the free text, in which markers stand for the exercise blocks;
/// `bw` is the body weight in grams.
#[derive(Debug, Clone)]
pub struct JDay {
    pub log: String,
    pub bw: Option<u32>,
    pub eblocks: Vec<EBlock>,
    pub exercises: Vec<ExerciseWrapper>,
}

/// The sets logged for one exercise, in the order in which they were logged.
#[derive(Debug, Clone)]
pub struct EBlock {
    pub eid: String,
    pub sets: Vec<LoggedSet>,
}

/// One logged effort.
///
/// Quantities that the service sends as decimal fractions are held as whole
/// numbers of a smaller unit, so that equal quantities are equal numbers:
/// `w` is the weight in grams and `rpe` the perceived effort in thousandths.
/// `lb` is the unit flag (1 for pounds), `s` the number of identical sets
/// folded into this record, `set_type` is 0 for an ordinary set.
#[derive(Debug, Clone)]
pub struct LoggedSet {
    pub w: Option<u32>,
    pub r: Option<u32>,
    pub s: Option<u32>,
    pub lb: Option<u32>,
    pub rpe: Option<u32>,
    pub set_type: Option<i32>,
    pub c: Option<String>,
}

impl Default for LoggedSet {
    fn default() -> (set: LoggedSet)
        ensures
            set.w is None,
            set.r is None,
            set.s is None,
            set.lb is None,
            set.rpe is None,
            set.set_type is None,
            set.c is None,
    {
        LoggedSet { w: None, r: None, s: None, lb: None, rpe: None, set_type: None, c: None }
    }
}

/// A set with every absent field replaced by its default.
pub struct LoggedSetView {
    pub weight: nat,
    pub reps: nat,
    pub mult: nat,
    pub lb: bool,
    pub rpe: nat,
    pub special: bool,
    pub comment: Seq<char>,
}

impl View for LoggedSet {
    type V = LoggedSetView;

    open spec fn view(&self) -> LoggedSetView {
        LoggedSetView {
            weight: match self.w {
                Some(w) => w as nat,
                None => 0,
            },
            reps: match self.r {
                Some(r) => r as nat,
                None => 0,
            },
            mult: match self.s {
                Some(s) => s as nat,
                None => 1,
            },
            lb: self.lb == Some(1u32),
            rpe: match self.rpe {
                Some(rpe) => rpe as nat,
                None => 0,
            },
            special: match self.set_type {
                Some(t) => t != 0,
                None => false,
            },
            comment: match self.c {
                Some(c) => c@,
                None => Seq::empty(),
            },
        }
    }
}

impl LoggedSet {
    /// The weight in grams; 0 where none is given.
    pub fn weight(&self) -> (w: u32)
        ensures
            w == self@.weight,
    {
        match self.w {
            Some(w) => w,
            None => 0,
        }
    }

    /// The repetitions; 0 where none are given.
    pub fn reps(&self) -> (r: u32)
        ensures
            r == self@.reps,
    {
        match self.r {
            Some(r) => r,
            None => 0,
        }
    }

    /// The number of identical sets that the record stands for; 1 where none is
    /// given.
    pub fn mult(&self) -> (s: u32)
        ensures
            s == self@.mult,
    {
        match self.s {
            Some(s) => s,
            None => 1,
        }
    }

    /// Whether the weight is shown in pounds.
    pub fn is_lb(&self) -> (lb: bool)
        ensures
            lb == self@.lb,
    {
        match self.lb {
            Some(flag) => flag == 1,
            None => false,
        }
    }

    /// The perceived effort in thousandths; 0 where none is given.
    pub fn effort(&self) -> (rpe: u32)
        ensures
            rpe == self@.rpe,
    {
        match self.rpe {
            Some(rpe) => rpe,
            None => 0,
        }
    }

    /// Whether the set is of a special type, which is never merged with its
    /// neighbours.
    pub fn is_special(&self) -> (special: bool)
        ensures
            special == self@.special,
    {
        match self.set_type {
            Some(t) => t != 0,
            None => false,
        }
    }
}

pub struct EBlockView {
    pub eid: Seq<char>,
    pub sets: Seq<LoggedSetView>,
}

impl View for EBlock {
    type V = EBlockView;

    open spec fn view(&self) -> EBlockView {
        EBlockView { eid: self.eid@, sets: self.sets@.map_values(|s: LoggedSet| s@) }
    }
}

#[derive(Debug, Clone)]
pub struct ExerciseWrapper {
    pub exercise: Exercise,
}

/// An exercise of a day's roster.
#[derive(Debug, Clone)]
pub struct Exercise {
    pub id: String,
    pub name: String,
    pub ex_type: Option<String>,
}

pub struct ExerciseView {
    pub id: Seq<char>,
    pub name: Seq<char>,
}

impl View for Exercise {
    type V = ExerciseView;

    open spec fn view(&self) -> ExerciseView {
        ExerciseView { id: self.id@, name: self.name@ }
    }
}

impl View for ExerciseWrapper {
    type V = ExerciseView;

    open spec fn view(&self) -> ExerciseView {
        self.exercise@
    }
}

pub struct JDayView {
    pub log: Seq<char>,
    pub bw: nat,
    pub eblocks: Seq<EBlockView>,
    pub exercises: Seq<ExerciseView>,
}

impl View for JDay {
    type V = JDayView;

    open spec fn view(&self) -> JDayView {
        JDayView {
            log: self.log@,
            bw: match self.bw {
                Some(bw) => bw as nat,
                None => 0,
            },
            eblocks: self.eblocks@.map_values(|b: EBlock| b@),
            exercises: self.exercises@.map_values(|e: ExerciseWrapper| e@),
        }
    }
}

/// What the service records of a user: `usekg` is 1 for kilograms.
#[derive(Debug, Clone)]
pub struct User {
    pub usekg: Option<i32>,
}

#[derive(Debug, Clone)]
pub struct UserBasicInfoData {
    pub get_session: Option<SessionInfo>,
}

#[derive(Debug, Clone)]
pub struct SessionInfo {
    pub user: User,
}

} // verus!
