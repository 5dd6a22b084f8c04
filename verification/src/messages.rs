//! The texts of the errors, as they are shown on the chart or on the error
//! page. An error that has a cause names it after `<br>caused by: `.

use vstd::prelude::*;
use vstd::string::*;
use crate::text::{decimal_string, decimal_text};

use crate::chartdate::{DateError};
use crate::chartperiod::{PeriodError};
use crate::chartrow::{RowError};
use crate::charttime::{TimeError};
use crate::data::{AttributeError, DoneError, PlanError, ScheduleError};
use crate::file::{LineError};
use crate::nodes::{BuildError, BuildErrorKind};
use crate::root::{ConfigError, DeveloperError, LabelError, ManagementError};
use crate::text::{NumberError};

verus! {

/// The digits of a number that may be larger than a `u32`.
pub open spec fn big_text(n: nat) -> Seq<char>
    decreases n,
{
    if n < 10 {
        decimal_text(n)
    } else {
        big_text(n / 10) + decimal_text(n % 10)
    }
}

pub fn big_string(n: u64) -> (r: String)
    ensures
        r@ == big_text(n as nat),
    decreases n,
{
    if n < 10 {
        decimal_string(n as u32)
    } else {
        let mut s = big_string(n / 10);
        s.append(decimal_string((n % 10) as u32).as_str());
        s
    }
}

/// The part of a day that so many quarters make, as it is written after the
/// whole days.
pub open spec fn quarters_text(quarters: int) -> Seq<char> {
    if quarters == 1 {
        ".25"@
    } else if quarters == 2 {
        ".5"@
    } else if quarters == 3 {
        ".75"@
    } else {
        ""@
    }
}

/// Quarters as days: `6` quarters are `1.5` days.
pub open spec fn days_text(quarters: nat) -> Seq<char> {
    big_text(quarters / 4) + quarters_text((quarters % 4) as int)
}

pub fn days_string(quarters: u64) -> (r: String)
    ensures
        r@ == days_text(quarters as nat),
{
    let mut s = big_string(quarters / 4);
    let part = quarters % 4;
    if part == 1 {
        s.append(".25");
    } else if part == 2 {
        s.append(".5");
    } else if part == 3 {
        s.append(".75");
    } else {
        s.append("");
    }
    s
}

/// What is wrong with a chart time, in words.
pub open spec fn time_text(e: TimeError) -> Seq<char> {
    match e {
        TimeError::Syntax => "Cannot parse chart time: expected WEEK, WEEK/DAY or WEEK/DAY/QUARTER"@,
        TimeError::WeekZero => "Week cannot be 0 in a chart time"@,
        TimeError::TooLate => "Chart time is too late to be counted"@,
    }
}

pub fn describe_time(e: TimeError) -> (r: String)
    ensures
        r@ == time_text(e),
{
    match e {
        TimeError::Syntax => {
            let mut s = String::from_str("Cannot parse chart time: expected WEEK, WEEK/DAY or WEEK/DAY/QUARTER");
            s
        },
        TimeError::WeekZero => {
            let mut s = String::from_str("Week cannot be 0 in a chart time");
            s
        },
        TimeError::TooLate => {
            let mut s = String::from_str("Chart time is too late to be counted");
            s
        },
    }
}

/// What is wrong with a number of days, in words.
pub open spec fn number_text(e: NumberError) -> Seq<char> {
    match e {
        NumberError::Syntax => "Cannot parse days: expected a decimal number"@,
        NumberError::TooLarge => "Too many days to be counted"@,
    }
}

pub fn describe_number(e: NumberError) -> (r: String)
    ensures
        r@ == number_text(e),
{
    match e {
        NumberError::Syntax => {
            let mut s = String::from_str("Cannot parse days: expected a decimal number");
            s
        },
        NumberError::TooLarge => {
            let mut s = String::from_str("Too many days to be counted");
            s
        },
    }
}

/// What is wrong with a period, in words.
pub open spec fn period_text(e: PeriodError) -> Seq<char> {
    match e {
        PeriodError::Syntax => "Cannot parse period: expected START..END"@,
        PeriodError::Start(e) => "Cannot parse start of period<br>caused by: "@ + time_text(e),
        PeriodError::End(e) => "Cannot parse end of period<br>caused by: "@ + time_text(e),
        PeriodError::Inverted => "End of period must be after the start"@,
        PeriodError::TooLate => "Period is too late to be counted"@,
    }
}

pub fn describe_period(e: PeriodError) -> (r: String)
    ensures
        r@ == period_text(e),
{
    match e {
        PeriodError::Syntax => {
            let mut s = String::from_str("Cannot parse period: expected START..END");
            s
        },
        PeriodError::Start(e) => {
            let mut s = String::from_str("Cannot parse start of period<br>caused by: ");
            s.append(describe_time(e).as_str());
            s
        },
        PeriodError::End(e) => {
            let mut s = String::from_str("Cannot parse end of period<br>caused by: ");
            s.append(describe_time(e).as_str());
            s
        },
        PeriodError::Inverted => {
            let mut s = String::from_str("End of period must be after the start");
            s
        },
        PeriodError::TooLate => {
            let mut s = String::from_str("Period is too late to be counted");
            s
        },
    }
}

/// What is wrong with a date, in words.
pub open spec fn date_text(e: DateError) -> Seq<char> {
    match e {
        DateError::Syntax => "Cannot parse date: expected DAY/MONTH/YY"@,
        DateError::NoSuchDate => "Cannot create date: the calendar has no such day"@,
    }
}

pub fn describe_date(e: DateError) -> (r: String)
    ensures
        r@ == date_text(e),
{
    match e {
        DateError::Syntax => {
            let mut s = String::from_str("Cannot parse date: expected DAY/MONTH/YY");
            s
        },
        DateError::NoSuchDate => {
            let mut s = String::from_str("Cannot create date: the calendar has no such day");
            s
        },
    }
}

/// What is wrong with a row, in words.
pub open spec fn row_text(e: RowError) -> Seq<char> {
    match e {
        RowError::CellOutOfRange { cell, width } => "Cell "@
            + decimal_text(cell as nat)
            + " is outside the chart, whose width is "@
            + decimal_text(width as nat),
        RowError::TooManyTransfers => "Tried to transfer too many cells"@,
    }
}

pub fn describe_row(e: RowError) -> (r: String)
    ensures
        r@ == row_text(e),
{
    match e {
        RowError::CellOutOfRange { cell, width } => {
            let mut s = String::from_str("Cell ");
            s.append(decimal_string(cell).as_str());
            s.append(" is outside the chart, whose width is ");
            s.append(decimal_string(width).as_str());
            s
        },
        RowError::TooManyTransfers => {
            let mut s = String::from_str("Tried to transfer too many cells");
            s
        },
    }
}

/// What is wrong with a line, in words.
pub open spec fn line_text(e: LineError) -> Seq<char> {
    match e {
        LineError::Unparsable => "Unable to parse line as a node or an attribute"@,
        LineError::IndentTooLong => "Line is indented too far"@,
    }
}

pub fn describe_line(e: LineError) -> (r: String)
    ensures
        r@ == line_text(e),
{
    match e {
        LineError::Unparsable => {
            let mut s = String::from_str("Unable to parse line as a node or an attribute");
            s
        },
        LineError::IndentTooLong => {
            let mut s = String::from_str("Line is indented too far");
            s
        },
    }
}

/// What is wrong with a label, in words.
pub open spec fn label_text(e: LabelError) -> Seq<char> {
    match e {
        LabelError::Syntax => "Couldn't parse label definition: expected TIME: TEXT"@,
        LabelError::Time(e) => "Failed to parse label date<br>caused by: "@ + time_text(e),
    }
}

pub fn describe_label(e: LabelError) -> (r: String)
    ensures
        r@ == label_text(e),
{
    match e {
        LabelError::Syntax => {
            let mut s = String::from_str("Couldn't parse label definition: expected TIME: TEXT");
            s
        },
        LabelError::Time(e) => {
            let mut s = String::from_str("Failed to parse label date<br>caused by: ");
            s.append(describe_time(e).as_str());
            s
        },
    }
}

/// What is wrong with a developer, in words.
pub open spec fn developer_text(e: DeveloperError) -> Seq<char> {
    match e {
        DeveloperError::Redefined => "Can't re-define a developer"@,
        DeveloperError::ChartTooLong => "The chart has too many weeks"@,
        DeveloperError::Range(e) => "Developer time range not valid<br>caused by: "@ + row_text(e),
    }
}

pub fn describe_developer(e: DeveloperError) -> (r: String)
    ensures
        r@ == developer_text(e),
{
    match e {
        DeveloperError::Redefined => {
            let mut s = String::from_str("Can't re-define a developer");
            s
        },
        DeveloperError::ChartTooLong => {
            let mut s = String::from_str("The chart has too many weeks");
            s
        },
        DeveloperError::Range(e) => {
            let mut s = String::from_str("Developer time range not valid<br>caused by: ");
            s.append(describe_row(e).as_str());
            s
        },
    }
}

/// What is wrong with the chart-wide settings, in words.
pub open spec fn config_text(e: ConfigError) -> Seq<char> {
    match e {
        ConfigError::NotASection => "Internal error: expected [global] or [devs]"@,
        ConfigError::Weeks => "Error parsing \"weeks\" from [global] node"@,
        ConfigError::Now(e) => "Error parsing \"now\" from [global] node<br>caused by: "@
            + time_text(e),
        ConfigError::Label(e) => "Failed to add label<br>caused by: "@ + label_text(e),
        ConfigError::StartDate(e) => "Error parsing \"start-date\" from [global] node<br>caused by: "@
            + date_text(e),
        ConfigError::UnknownGlobal => "Unrecognised attribute in [global] node"@,
        ConfigError::DeveloperPeriod(e) => "Error parsing time range in [devs] node<br>caused by: "@
            + period_text(e),
        ConfigError::Developer(e) => "Error adding developer in [devs] node<br>caused by: "@
            + developer_text(e),
        ConfigError::ManagerUnknown => "Manager not defined as a dev"@,
    }
}

pub fn describe_config(e: ConfigError) -> (r: String)
    ensures
        r@ == config_text(e),
{
    match e {
        ConfigError::NotASection => {
            let mut s = String::from_str("Internal error: expected [global] or [devs]");
            s
        },
        ConfigError::Weeks => {
            let mut s = String::from_str("Error parsing \"weeks\" from [global] node");
            s
        },
        ConfigError::Now(e) => {
            let mut s = String::from_str("Error parsing \"now\" from [global] node<br>caused by: ");
            s.append(describe_time(e).as_str());
            s
        },
        ConfigError::Label(e) => {
            let mut s = String::from_str("Failed to add label<br>caused by: ");
            s.append(describe_label(e).as_str());
            s
        },
        ConfigError::StartDate(e) => {
            let mut s = String::from_str("Error parsing \"start-date\" from [global] node<br>caused by: ");
            s.append(describe_date(e).as_str());
            s
        },
        ConfigError::UnknownGlobal => {
            let mut s = String::from_str("Unrecognised attribute in [global] node");
            s
        },
        ConfigError::DeveloperPeriod(e) => {
            let mut s = String::from_str("Error parsing time range in [devs] node<br>caused by: ");
            s.append(describe_period(e).as_str());
            s
        },
        ConfigError::Developer(e) => {
            let mut s = String::from_str("Error adding developer in [devs] node<br>caused by: ");
            s.append(describe_developer(e).as_str());
            s
        },
        ConfigError::ManagerUnknown => {
            let mut s = String::from_str("Manager not defined as a dev");
            s
        },
    }
}

/// What is wrong with booking the manager, in words.
pub open spec fn management_text(e: ManagementError) -> Seq<char> {
    match e {
        ManagementError::RowTooShort => "The row is shorter than the chart"@,
        ManagementError::Unallocated { quarters } => "Failed to allocate "@
            + days_text(quarters as nat)
            + " days of management resource"@,
    }
}

pub fn describe_management(e: ManagementError) -> (r: String)
    ensures
        r@ == management_text(e),
{
    match e {
        ManagementError::RowTooShort => {
            let mut s = String::from_str("The row is shorter than the chart");
            s
        },
        ManagementError::Unallocated { quarters } => {
            let mut s = String::from_str("Failed to allocate ");
            s.append(days_string(quarters).as_str());
            s.append(" days of management resource");
            s
        },
    }
}

/// What is wrong with a plan, in words.
pub open spec fn plan_text(e: PlanError) -> Seq<char> {
    match e {
        PlanError::Time(e) => "Failed to parse chart time from plan<br>caused by: "@ + time_text(e),
        PlanError::Number(e) => "Failed to parse plan duration<br>caused by: "@ + number_text(e),
    }
}

pub fn describe_plan(e: PlanError) -> (r: String)
    ensures
        r@ == plan_text(e),
{
    match e {
        PlanError::Time(e) => {
            let mut s = String::from_str("Failed to parse chart time from plan<br>caused by: ");
            s.append(describe_time(e).as_str());
            s
        },
        PlanError::Number(e) => {
            let mut s = String::from_str("Failed to parse plan duration<br>caused by: ");
            s.append(describe_number(e).as_str());
            s
        },
    }
}

/// What is wrong with work done, in words.
pub open spec fn done_text(e: DoneError) -> Seq<char> {
    match e {
        DoneError::Syntax => "Cannot parse done part: expected TIME:DAYS"@,
        DoneError::Time(e) => "Failed to parse done start time<br>caused by: "@ + time_text(e),
        DoneError::Number(e) => "Failed to parse done duration<br>caused by: "@ + number_text(e),
        DoneError::Zero => "Specified done time as 0"@,
        DoneError::OutsideChart => "Done time period falls outside the chart"@,
    }
}

pub fn describe_done(e: DoneError) -> (r: String)
    ensures
        r@ == done_text(e),
{
    match e {
        DoneError::Syntax => {
            let mut s = String::from_str("Cannot parse done part: expected TIME:DAYS");
            s
        },
        DoneError::Time(e) => {
            let mut s = String::from_str("Failed to parse done start time<br>caused by: ");
            s.append(describe_time(e).as_str());
            s
        },
        DoneError::Number(e) => {
            let mut s = String::from_str("Failed to parse done duration<br>caused by: ");
            s.append(describe_number(e).as_str());
            s
        },
        DoneError::Zero => {
            let mut s = String::from_str("Specified done time as 0");
            s
        },
        DoneError::OutsideChart => {
            let mut s = String::from_str("Done time period falls outside the chart");
            s
        },
    }
}

/// What is wrong with an attribute, in words.
pub open spec fn attribute_text(e: AttributeError) -> Seq<char> {
    match e {
        AttributeError::Budget(e) => "Failed to parse budget<br>caused by: "@ + number_text(e),
        AttributeError::BudgetNegative => "Failed to set budget<br>caused by: Budget must be >= 0"@,
        AttributeError::Schedule => "Failed to set schedule<br>caused by: Failed to parse scheduling strategy"@,
        AttributeError::Resource => "Failed to set resource<br>caused by: Failed to parse resourcing strategy"@,
        AttributeError::UnknownDeveloper => "Failed to set dev<br>caused by: Developer not known"@,
        AttributeError::Plan(e) => "Failed to set plan<br>caused by: "@ + plan_text(e),
        AttributeError::DefaultPlan(e) => "Failed to set default-plan<br>caused by: "@
            + plan_text(e),
        AttributeError::Done(e) => "Failed to set done<br>caused by: "@ + done_text(e),
        AttributeError::EarliestStart(e) => "Failed to set earliest-start<br>caused by: "@
            + time_text(e),
        AttributeError::LatestEnd(e) => "Failed to set latest-end<br>caused by: "@ + time_text(e),
        AttributeError::StartAfterEnd => "The earliest start would come after the latest end"@,
        AttributeError::Unknown => "Unrecognised attribute"@,
    }
}

pub fn describe_attribute(e: AttributeError) -> (r: String)
    ensures
        r@ == attribute_text(e),
{
    match e {
        AttributeError::Budget(e) => {
            let mut s = String::from_str("Failed to parse budget<br>caused by: ");
            s.append(describe_number(e).as_str());
            s
        },
        AttributeError::BudgetNegative => {
            let mut s = String::from_str("Failed to set budget<br>caused by: Budget must be >= 0");
            s
        },
        AttributeError::Schedule => {
            let mut s = String::from_str("Failed to set schedule<br>caused by: Failed to parse scheduling strategy");
            s
        },
        AttributeError::Resource => {
            let mut s = String::from_str("Failed to set resource<br>caused by: Failed to parse resourcing strategy");
            s
        },
        AttributeError::UnknownDeveloper => {
            let mut s = String::from_str("Failed to set dev<br>caused by: Developer not known");
            s
        },
        AttributeError::Plan(e) => {
            let mut s = String::from_str("Failed to set plan<br>caused by: ");
            s.append(describe_plan(e).as_str());
            s
        },
        AttributeError::DefaultPlan(e) => {
            let mut s = String::from_str("Failed to set default-plan<br>caused by: ");
            s.append(describe_plan(e).as_str());
            s
        },
        AttributeError::Done(e) => {
            let mut s = String::from_str("Failed to set done<br>caused by: ");
            s.append(describe_done(e).as_str());
            s
        },
        AttributeError::EarliestStart(e) => {
            let mut s = String::from_str("Failed to set earliest-start<br>caused by: ");
            s.append(describe_time(e).as_str());
            s
        },
        AttributeError::LatestEnd(e) => {
            let mut s = String::from_str("Failed to set latest-end<br>caused by: ");
            s.append(describe_time(e).as_str());
            s
        },
        AttributeError::StartAfterEnd => {
            let mut s = String::from_str("The earliest start would come after the latest end");
            s
        },
        AttributeError::Unknown => {
            let mut s = String::from_str("Unrecognised attribute");
            s
        },
    }
}

/// What is wrong with laying out a task, in words.
pub open spec fn schedule_text(e: ScheduleError) -> Seq<char> {
    match e {
        ScheduleError::RowTooShort => "The task's row is shorter than the chart"@,
        ScheduleError::DoneUnallocated { quarters, start } => "Failed to add "@
            + decimal_text(quarters as nat)
            + " quarters of resource at quarter "@
            + decimal_text(start as nat),
        ScheduleError::NotManager => "The developer is not the configured manager"@,
        ScheduleError::NoManager => "No manager defined in global config"@,
        ScheduleError::Management(e) => management_text(e),
        ScheduleError::DeveloperUnavailable { quarters } => "Failed to write "@
            + days_text(quarters as nat)
            + " days because the developer is not available"@,
        ScheduleError::OverCommitted { quarters } => "Over-committed by "@
            + days_text(quarters as nat)
            + " days; update plan"@,
        ScheduleError::Unallocated { quarters } => days_text(quarters as nat)
            + " days unallocated"@,
        ScheduleError::NoStrategy => "ResourcingStrategy not specified!"@,
    }
}

pub fn describe_schedule(e: ScheduleError) -> (r: String)
    ensures
        r@ == schedule_text(e),
{
    match e {
        ScheduleError::RowTooShort => {
            let mut s = String::from_str("The task's row is shorter than the chart");
            s
        },
        ScheduleError::DoneUnallocated { quarters, start } => {
            let mut s = String::from_str("Failed to add ");
            s.append(decimal_string(quarters).as_str());
            s.append(" quarters of resource at quarter ");
            s.append(decimal_string(start).as_str());
            s
        },
        ScheduleError::NotManager => {
            let mut s = String::from_str("The developer is not the configured manager");
            s
        },
        ScheduleError::NoManager => {
            let mut s = String::from_str("No manager defined in global config");
            s
        },
        ScheduleError::Management(e) => {
            let mut s = describe_management(e);
            s
        },
        ScheduleError::DeveloperUnavailable { quarters } => {
            let mut s = String::from_str("Failed to write ");
            s.append(days_string(quarters as u64).as_str());
            s.append(" days because the developer is not available");
            s
        },
        ScheduleError::OverCommitted { quarters } => {
            let mut s = String::from_str("Over-committed by ");
            s.append(days_string(quarters as u64).as_str());
            s.append(" days; update plan");
            s
        },
        ScheduleError::Unallocated { quarters } => {
            let mut s = days_string(quarters as u64);
            s.append(" days unallocated");
            s
        },
        ScheduleError::NoStrategy => {
            let mut s = String::from_str("ResourcingStrategy not specified!");
            s
        },
    }
}

/// What is wrong with building the tree, in words.
pub open spec fn build_kind_text(e: BuildErrorKind) -> Seq<char> {
    match e {
        BuildErrorKind::AttributeOnRoot => "Attempt to define attribute on root node"@,
        BuildErrorKind::Attribute(e) => "Failed to add attribute<br>caused by: "@
            + attribute_text(e),
        BuildErrorKind::Config(e) => "Failed to read node containing root config<br>caused by: "@
            + config_text(e),
        BuildErrorKind::ChartTooLong => "The chart has too many weeks"@,
        BuildErrorKind::TooDeep => "The nodes are nested too deep"@,
    }
}

pub fn describe_build_kind(e: BuildErrorKind) -> (r: String)
    ensures
        r@ == build_kind_text(e),
{
    match e {
        BuildErrorKind::AttributeOnRoot => {
            let mut s = String::from_str("Attempt to define attribute on root node");
            s
        },
        BuildErrorKind::Attribute(e) => {
            let mut s = String::from_str("Failed to add attribute<br>caused by: ");
            s.append(describe_attribute(e).as_str());
            s
        },
        BuildErrorKind::Config(e) => {
            let mut s = String::from_str("Failed to read node containing root config<br>caused by: ");
            s.append(describe_config(e).as_str());
            s
        },
        BuildErrorKind::ChartTooLong => {
            let mut s = String::from_str("The chart has too many weeks");
            s
        },
        BuildErrorKind::TooDeep => {
            let mut s = String::from_str("The nodes are nested too deep");
            s
        },
    }
}

/// What is wrong with a plan file, with the line at which it shows.
pub open spec fn build_text(e: BuildError) -> Seq<char> {
    build_kind_text(e.kind) + " (node at line "@ + decimal_text(e.line_num as nat) + ")"@
}

pub fn describe_build(e: BuildError) -> (r: String)
    ensures
        r@ == build_text(e),
{
    let mut s = describe_build_kind(e.kind);
    s.append(" (node at line ");
    s.append(decimal_string(e.line_num).as_str());
    s.append(")");
    s
}

/// An error as the chart shows it: `Error: ` and the text.
pub open spec fn error_html(text: Seq<char>) -> Seq<char> {
    "Error: "@ + text
}

/// Puts `Error: ` before the text of an error.
pub fn generate_error_html(text: &str) -> (r: String)
    ensures
        r@ == error_html(text@),
{
    let mut s = String::from_str("Error: ");
    s.append(text);
    s
}

} // verus!
