//! The records exchanged with the learning platform and the snapshot store.
use vstd::prelude::*;

verus! {

/// Copies an optional string, keeping its value.
pub fn copy_opt_string(s: &Option<String>) -> (r: Option<String>)
    ensures
        r == *s,
{
    match s {
        Some(v) => Some(v.clone()),
        None => None,
    }
}

/// A registered account: the platform token and, when the owner has a
/// device, the token that push messages are addressed to.
#[derive(Clone, Debug, PartialEq, Eq)]
pub struct Token {
    pub token: String,
    pub device_token: Option<String>,
}

impl Token {
    pub fn new(token: String, device_token: Option<String>) -> (r: Token)
        ensures
            r.token == token,
            r.device_token == device_token,
    {
        Token { token, device_token }
    }
}

/// The profile of an account's owner.
#[derive(Clone, Debug)]
pub struct User {
    pub userid: u64,
    pub username: String,
    pub fullname: String,
}

impl User {
    /// Two profiles are the same when every field holds the same value.
    pub open spec fn same_profile(&self, o: &User) -> bool {
        self.userid == o.userid && self.username@ == o.username@ && self.fullname@ == o.fullname@
    }
}

impl PartialEq for User {
    fn eq(&self, o: &User) -> (r: bool) {
        self.userid == o.userid && self.username == o.username && self.fullname == o.fullname
    }
}

impl vstd::std_specs::cmp::PartialEqSpecImpl for User {
    open spec fn obeys_eq_spec() -> bool {
        true
    }

    open spec fn eq_spec(&self, o: &User) -> bool {
        self.same_profile(o)
    }
}

/// A course the account is enrolled in. `enddate` is a Unix time in seconds;
/// zero means that the course has no end.
#[derive(Clone, Debug, PartialEq, Eq)]
pub struct Course {
    pub id: u64,
    pub fullname: String,
    pub enddate: u64,
}

impl Course {
    pub open spec fn is_past(&self, now: u64) -> bool {
        self.enddate != 0 && self.enddate < now
    }

    pub fn copied(&self) -> (r: Course)
        ensures
            r == *self,
    {
        Course { id: self.id, fullname: self.fullname.clone(), enddate: self.enddate }
    }
}

/// One grade item of a course. Items are identified by course and item name.
#[derive(Clone, Debug, PartialEq, Eq)]
pub struct Grade {
    pub courseid: u64,
    pub coursename: Option<String>,
    pub itemname: String,
    pub percentageformatted: String,
}

impl Grade {
    pub fn copied(&self) -> (r: Grade)
        ensures
            r == *self,
    {
        Grade {
            courseid: self.courseid,
            coursename: copy_opt_string(&self.coursename),
            itemname: self.itemname.clone(),
            percentageformatted: self.percentageformatted.clone(),
        }
    }
}

/// The total grade of one course.
#[derive(Clone, Debug, PartialEq, Eq)]
pub struct GradeOverview {
    pub courseid: u64,
    pub course_name: Option<String>,
    pub grade: String,
}

impl GradeOverview {
    pub fn copied(&self) -> (r: GradeOverview)
        ensures
            r == *self,
    {
        GradeOverview {
            courseid: self.courseid,
            course_name: copy_opt_string(&self.course_name),
            grade: self.grade.clone(),
        }
    }
}

/// An assignment deadline; `timestart` is the due time in Unix seconds.
#[derive(Clone, Debug, PartialEq, Eq)]
pub struct Deadline {
    pub id: u64,
    pub courseid: u64,
    pub coursename: Option<String>,
    pub name: String,
    pub timestart: u64,
}

impl Deadline {
    pub fn copied(&self) -> (r: Deadline)
        ensures
            r == *self,
    {
        Deadline {
            id: self.id,
            courseid: self.courseid,
            coursename: copy_opt_string(&self.coursename),
            name: self.name.clone(),
            timestart: self.timestart,
        }
    }
}

/// An outbound push message to one device.
#[derive(Clone, Debug, PartialEq, Eq)]
pub struct Notification {
    pub device_token: String,
    pub title: String,
    pub body: String,
}

impl Notification {
    pub fn new(device_token: String, title: String, body: String) -> (r: Notification)
        ensures
            r.device_token == device_token,
            r.title == title,
            r.body == body,
    {
        Notification { device_token, title, body }
    }
}

} // verus!
