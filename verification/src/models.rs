//! The data model: identity-provider descriptions, Wilma account roles,
//! and course records.
//!
//! These are the plain values the logic works on. Reading them off the
//! wire (JSON documents, HTML pages) happens outside the library, which
//! hands them in as they stand here. Study weights are held in thousandths
//! of a unit, so every value the dumper meets is exact.

use vstd::prelude::*;

verus! {

/// One OpenID provider offered by a Wilma instance's index document.
#[derive(Debug, Clone)]
pub struct OpenIDProvider {
    pub name: String,
    pub client_id: String,
    pub configuration: String,
    pub scope: String,
}

/// The part of a provider's OpenID discovery document the flow needs.
#[derive(Debug)]
pub struct OpenIDConfiguration {
    pub issuer: String,
    pub authorization_endpoint: String,
    pub token_endpoint: String,
}

/// One Wilma instance as listed by the public hub.
#[derive(Debug, Clone)]
pub struct WilmaHubWilma {
    pub url: String,
    pub name: String,
}

/// A Wilma instance's index document.
#[derive(Debug)]
pub struct WilmaIndexJson {
    pub login_result: String,
    pub session_id: String,
    pub api_version: i32,
    pub oidc_test_mode: Option<bool>,
    pub oidc_providers: Option<Vec<OpenIDProvider>>,
}

/// The kind of account a role belongs to.
#[derive(Debug, Clone, Copy, PartialEq, Eq, Structural)]
pub enum WilmaRoleType {
    Passwd,
    Student,
    Teacher,
    Unknown,
}

impl WilmaRoleType {
    /// The role kind a wire name stands for; every unknown name maps to
    /// `Unknown`.
    pub fn from_name(s: &String) -> (r: WilmaRoleType)
        ensures
            r == (if s@ == "passwd"@ {
                WilmaRoleType::Passwd
            } else if s@ == "student"@ {
                WilmaRoleType::Student
            } else if s@ == "teacher"@ {
                WilmaRoleType::Teacher
            } else {
                WilmaRoleType::Unknown
            }),
    {
        if *s == "passwd".to_owned() {
            WilmaRoleType::Passwd
        } else if *s == "student".to_owned() {
            WilmaRoleType::Student
        } else if *s == "teacher".to_owned() {
            WilmaRoleType::Teacher
        } else {
            WilmaRoleType::Unknown
        }
    }
}

/// One school attached to a role.
#[derive(Debug, Clone)]
pub struct WilmaSchool {
    pub id: i32,
    pub caption: String,
}

/// One role of the authenticated account.
#[derive(Debug, Clone)]
pub struct WilmaRole {
    pub name: String,
    pub type_: WilmaRoleType,
    pub primus_id: i32,
    pub form_key: String,
    pub slug: String,
    pub schools: Vec<WilmaSchool>,
}

/// The role list returned for the authenticated account.
#[derive(Debug)]
pub struct WilmaRoleResponse {
    pub payload: Vec<WilmaRole>,
}

/// A course's grade as Wilma shows it: a number from four to ten, a bare
/// pass, or not yet finished.
#[derive(Debug, Clone, Copy, PartialEq, Eq, Structural)]
pub enum CourseGrade {
    Unfinished,
    Four,
    Five,
    Six,
    Seven,
    Eight,
    Nine,
    Ten,
    Pass,
}

impl CourseGrade {
    /// The wire name of a grade.
    pub open spec fn name_view(self) -> Seq<char> {
        match self {
            CourseGrade::Unfinished => "T"@,
            CourseGrade::Four => "4"@,
            CourseGrade::Five => "5"@,
            CourseGrade::Six => "6"@,
            CourseGrade::Seven => "7"@,
            CourseGrade::Eight => "8"@,
            CourseGrade::Nine => "9"@,
            CourseGrade::Ten => "10"@,
            CourseGrade::Pass => "S"@,
        }
    }

    /// The grade a wire name stands for, if any.
    pub open spec fn of_name(s: Seq<char>) -> Option<CourseGrade> {
        if s == "T"@ {
            Some(CourseGrade::Unfinished)
        } else if s == "4"@ {
            Some(CourseGrade::Four)
        } else if s == "5"@ {
            Some(CourseGrade::Five)
        } else if s == "6"@ {
            Some(CourseGrade::Six)
        } else if s == "7"@ {
            Some(CourseGrade::Seven)
        } else if s == "8"@ {
            Some(CourseGrade::Eight)
        } else if s == "9"@ {
            Some(CourseGrade::Nine)
        } else if s == "10"@ {
            Some(CourseGrade::Ten)
        } else if s == "S"@ {
            Some(CourseGrade::Pass)
        } else {
            None
        }
    }

    /// The grade's wire name, for display and dumps.
    pub fn to_name(&self) -> (r: String)
        ensures
            r@ == self.name_view(),
    {
        match self {
            CourseGrade::Unfinished => "T".to_owned(),
            CourseGrade::Four => "4".to_owned(),
            CourseGrade::Five => "5".to_owned(),
            CourseGrade::Six => "6".to_owned(),
            CourseGrade::Seven => "7".to_owned(),
            CourseGrade::Eight => "8".to_owned(),
            CourseGrade::Nine => "9".to_owned(),
            CourseGrade::Ten => "10".to_owned(),
            CourseGrade::Pass => "S".to_owned(),
        }
    }

    /// Reads a grade from its wire name; `None` on any other text.
    pub fn try_from_name(s: &String) -> (r: Option<CourseGrade>)
        ensures
            r == CourseGrade::of_name(s@),
    {
        if *s == "T".to_owned() {
            Some(CourseGrade::Unfinished)
        } else if *s == "4".to_owned() {
            Some(CourseGrade::Four)
        } else if *s == "5".to_owned() {
            Some(CourseGrade::Five)
        } else if *s == "6".to_owned() {
            Some(CourseGrade::Six)
        } else if *s == "7".to_owned() {
            Some(CourseGrade::Seven)
        } else if *s == "8".to_owned() {
            Some(CourseGrade::Eight)
        } else if *s == "9".to_owned() {
            Some(CourseGrade::Nine)
        } else if *s == "10".to_owned() {
            Some(CourseGrade::Ten)
        } else if *s == "S".to_owned() {
            Some(CourseGrade::Pass)
        } else {
            None
        }
    }
}

/// One course of the study record. The two study weights are in
/// thousandths: `study_points == 1500` stands for one and a half credits.
#[derive(Debug, Clone)]
pub struct Course {
    pub code: String,
    pub name: String,
    pub selected: bool,
    pub selectable: bool,
    pub optional: bool,
    pub type_: String,
    pub grade: Option<CourseGrade>,
    pub completed_at: Option<String>,
    pub study_weeks: u32,
    pub study_points: u32,
}

impl Course {
    /// A course earns its points exactly when it carries a grade other
    /// than "unfinished".
    pub fn eligible_for_points(&self) -> (r: bool)
        ensures
            r == match self.grade {
                Some(g) => !(g is Unfinished),
                None => false,
            },
    {
        match self.grade {
            Some(g) => !matches!(g, CourseGrade::Unfinished),
            None => false,
        }
    }
}

} // verus!
